use crate::db::Db;
use vstd::prelude::*;

verus! {

/// Relies on `uuid::Uuid::now_v7`: a fresh time-ordered identifier in its
/// canonical hyphenated text form. The value depends on the clock and on
/// randomness, so only the rendered length is promised.
#[verifier::external_body]
pub(crate) fn new_uuid_v7() -> (r: String)
    ensures
        r@.len() == 36,
{
    uuid::Uuid::now_v7().to_string()
}

impl Db {
    /// Draw `n` identifiers that are pairwise distinct and unused by any
    /// run of the queue; in the astronomically unlikely case of a
    /// collision, nothing is returned and the caller may try again.
    pub fn fresh_run_ids(&self, queue: &String, n: usize) -> (r: Option<Vec<String>>)
        ensures
            (match r {
                Some(ids) => {
                    &&& ids.deep_view().len() == n
                    &&& (forall|x: int, y: int|
                        0 <= x < n && 0 <= y < n && x != y ==> ids.deep_view()[x]
                            != ids.deep_view()[y])
                    &&& (forall|x: int|
                        0 <= x < n ==> !self@.has_run(queue@, #[trigger] ids.deep_view()[x]))
                },
                None => true,
            }),
    {
        let mut out: Vec<String> = Vec::new();
        let mut i: usize = 0;
        while i < n
            invariant
                0 <= i <= n,
                out.deep_view().len() == i,
                forall|x: int, y: int|
                    0 <= x < i && 0 <= y < i && x != y ==> out.deep_view()[x] != out.deep_view()[y],
                forall|x: int|
                    0 <= x < i ==> !self@.has_run(queue@, #[trigger] out.deep_view()[x]),
            decreases n - i,
        {
            let id = new_uuid_v7();
            if self.find_run(queue, &id).is_some() {
                return None;
            }
            let mut j: usize = 0;
            while j < out.len()
                invariant
                    0 <= j <= out.len(),
                    forall|x: int| 0 <= x < j ==> out.deep_view()[x] != id@,
                decreases out.len() - j,
            {
                if out[j].eq(&id) {
                    return None;
                }
                j = j + 1;
            }
            let ghost before = out.deep_view();
            out.push(id);
            proof {
                assert(out.deep_view() =~= before.push(out@[i as int]@));
            }
            i = i + 1;
        }
        Some(out)
    }
}

} // verus!
