use vstd::prelude::*;

verus! {

/// The voice that a new note goes to: the first whose current note is `None`,
/// if any. With every voice busy the note is dropped.
pub fn first_free_voice<T>(current: &Vec<Option<T>>) -> (r: Option<usize>)
    ensures
        match r {
            Some(i) => {
                &&& i < current@.len()
                &&& current@[i as int] is None
                &&& forall|j: int| 0 <= j < i ==> #[trigger] current@[j] is Some
            },
            None => forall|j: int| 0 <= j < current@.len() ==> #[trigger] current@[j] is Some,
        },
{
    let mut i: usize = 0;
    while i < current.len()
        invariant
            i <= current@.len(),
            forall|j: int| 0 <= j < i ==> #[trigger] current@[j] is Some,
        decreases current@.len() - i,
    {
        if current[i].is_none() {
            return Some(i);
        }
        i = i + 1;
    }
    None
}

} // verus!
