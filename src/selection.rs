use vstd::prelude::*;
use crate::record::{TrainingDetails, completed};

verus! {

/// What a line of user input selects.
pub enum Selection {
    /// An empty line: nothing was done today.
    NoSelection,
    /// The index of the first routine whose name is the input.
    Resolved(usize),
    /// A non-empty input that names no routine.
    UnknownSelection(String),
}

/// Some routine in `s` carries the name `name`.
pub open spec fn names_some(s: Seq<TrainingDetails>, name: Seq<char>) -> bool {
    exists|j: int| 0 <= j < s.len() && #[trigger] s[j].name@ == name
}

/// `i` is the first position in `s` whose routine carries the name `name`.
pub open spec fn is_first_match(s: Seq<TrainingDetails>, name: Seq<char>, i: int) -> bool {
    &&& 0 <= i < s.len()
    &&& s[i].name@ == name
    &&& forall|j: int| 0 <= j < i ==> #[trigger] s[j].name@ != name
}

/// What `input` resolves to against the routines `s`.
pub open spec fn resolves_to(input: Seq<char>, s: Seq<TrainingDetails>, r: Selection) -> bool {
    match r {
        Selection::NoSelection => input.len() == 0,
        Selection::Resolved(i) => input.len() != 0 && is_first_match(s, input, i as int),
        Selection::UnknownSelection(u) => input.len() != 0 && !names_some(s, input) && u@ == input,
    }
}

/// Resolves a line of user input against the routines: an empty line selects
/// nothing, a name selects the first routine that carries it exactly, and any
/// other input is reported back as unknown.
pub fn resolve_selection(input: &String, trainings: &Vec<TrainingDetails>) -> (r: Selection)
    ensures
        resolves_to(input@, trainings@, r),
{
    if input.as_str().is_empty() {
        return Selection::NoSelection;
    }
    let mut i: usize = 0;
    while i < trainings.len()
        invariant
            input@.len() != 0,
            i <= trainings@.len(),
            forall|j: int| 0 <= j < i ==> #[trigger] trainings@[j].name@ != input@,
        decreases trainings@.len() - i,
    {
        if trainings[i].name == *input {
            return Selection::Resolved(i);
        }
        i = i + 1;
    }
    Selection::UnknownSelection(input.clone())
}

/// Resolves `input` and, where it names a routine, marks that routine as
/// done today. Any other input leaves the routines as they were.
pub fn apply_selection(input: &String, trainings: &mut Vec<TrainingDetails>) -> (r: Selection)
    ensures
        resolves_to(input@, old(trainings)@, r),
        match r {
            Selection::Resolved(i) => final(trainings)@ == old(trainings)@.update(
                i as int,
                completed(old(trainings)@[i as int]),
            ),
            _ => final(trainings)@ == old(trainings)@,
        },
{
    let r = resolve_selection(input, trainings);
    if let Selection::Resolved(i) = r {
        let mut t = trainings[i].duplicate();
        t.complete();
        trainings.set(i, t);
    }
    r
}

proof fn lemma_first_match_exists(s: Seq<TrainingDetails>, name: Seq<char>, k: int)
    requires
        0 <= k < s.len(),
        s[k].name@ == name,
    ensures
        exists|i: int| is_first_match(s, name, i),
    decreases k,
{
    if exists|j: int| 0 <= j < k && #[trigger] s[j].name@ == name {
        let j = choose|j: int| 0 <= j < k && #[trigger] s[j].name@ == name;
        lemma_first_match_exists(s, name, j);
    } else {
        assert(is_first_match(s, name, k));
    }
}

/// Every input resolves to exactly one of the three outcomes, whatever the
/// routines: an empty input to no selection, a name that some routine carries
/// to the first such routine, and any other input to an unknown selection.
pub proof fn lemma_resolution_is_total(input: Seq<char>, s: Seq<TrainingDetails>)
    requires
        s.len() <= usize::MAX,
    ensures
        input.len() == 0 ==> resolves_to(input, s, Selection::NoSelection),
        input.len() != 0 && names_some(s, input) ==> exists|i: usize|
            #[trigger] resolves_to(input, s, Selection::Resolved(i)),
        input.len() != 0 && !names_some(s, input) ==> forall|r: Selection|
            #[trigger] resolves_to(input, s, r) ==> r is UnknownSelection,
        forall|i1: usize, i2: usize|
            #[trigger] resolves_to(input, s, Selection::Resolved(i1)) && #[trigger] resolves_to(
                input,
                s,
                Selection::Resolved(i2),
            ) ==> i1 == i2,
        forall|r: Selection|
            #[trigger] resolves_to(input, s, r) ==> (r is NoSelection <==> input.len() == 0) && (
            r is Resolved <==> input.len() != 0 && names_some(s, input)),
{
    if input.len() != 0 && names_some(s, input) {
        let k = choose|j: int| 0 <= j < s.len() && #[trigger] s[j].name@ == input;
        lemma_first_match_exists(s, input, k);
        let i = choose|i: int| is_first_match(s, input, i);
        assert(resolves_to(input, s, Selection::Resolved(i as usize)));
    }
    assert forall|r: Selection| #[trigger] resolves_to(input, s, r) implies (r is Resolved <==> input.len() != 0 && names_some(s, input)) by {
        if let Selection::Resolved(i) = r {
            assert(s[i as int].name@ == input);
        }
    }
    assert forall|i1: usize, i2: usize|
        #[trigger] resolves_to(input, s, Selection::Resolved(i1)) && #[trigger] resolves_to(
            input,
            s,
            Selection::Resolved(i2),
        ) implies i1 == i2 by {
        if i1 < i2 {
            assert(s[i1 as int].name@ == input);
        } else if i2 < i1 {
            assert(s[i2 as int].name@ == input);
        }
    }
}

} // verus!
