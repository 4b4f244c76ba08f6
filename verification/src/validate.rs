use crate::state::EngineError;
use vstd::prelude::*;

verus! {

/// ASCII whitespace, the characters `trim` strips from names and payloads.
pub open spec fn is_ws(c: char) -> bool {
    c == ' ' || c == '\t' || c == '\n' || c == '\r'
}

/// A text is blank when every character is whitespace.
pub open spec fn spec_is_blank(s: Seq<char>) -> bool {
    forall|i: int| 0 <= i < s.len() ==> is_ws(#[trigger] s[i])
}

/// Whether the text is blank.
pub fn is_blank(s: &str) -> (b: bool)
    ensures
        b == spec_is_blank(s@),
{
    let n = s.unicode_len();
    let mut i: usize = 0;
    while i < n
        invariant
            0 <= i <= n,
            n == s@.len(),
            forall|j: int| 0 <= j < i ==> is_ws(#[trigger] s@[j]),
        decreases n - i,
    {
        let c = s.get_char(i);
        if !(c == ' ' || c == '\t' || c == '\n' || c == '\r') {
            return false;
        }
        i = i + 1;
    }
    true
}

/// A queue name must be non-blank and short enough for the store.
pub open spec fn spec_queue_name_ok(s: Seq<char>) -> bool {
    !spec_is_blank(s) && s.len() + 2 <= 50
}

/// A task, step or event name must be non-blank.
pub open spec fn spec_name_ok(s: Seq<char>) -> bool {
    !spec_is_blank(s)
}

/// Reject a malformed queue name.
pub fn queue_name(name: &str) -> (r: Result<(), EngineError>)
    ensures
        r == Ok::<(), EngineError>(()) <==> spec_queue_name_ok(name@),
        r is Err ==> r == Err::<(), EngineError>(EngineError::Validation),
{
    if is_blank(name) {
        return Err(EngineError::Validation);
    }
    if s_len_over(name, 48) {
        return Err(EngineError::Validation);
    }
    Ok(())
}

/// Whether the name has more than `max` characters.
fn s_len_over(s: &str, max: usize) -> (b: bool)
    ensures
        b == (s@.len() > max),
{
    s.unicode_len() > max
}

/// Reject a malformed task name.
pub fn task_name(name: &str) -> (r: Result<(), EngineError>)
    ensures
        r == Ok::<(), EngineError>(()) <==> spec_name_ok(name@),
        r is Err ==> r == Err::<(), EngineError>(EngineError::Validation),
{
    if is_blank(name) {
        Err(EngineError::Validation)
    } else {
        Ok(())
    }
}

/// Reject a malformed step name.
pub fn step_name(name: &str) -> (r: Result<(), EngineError>)
    ensures
        r == Ok::<(), EngineError>(()) <==> spec_name_ok(name@),
        r is Err ==> r == Err::<(), EngineError>(EngineError::Validation),
{
    if is_blank(name) {
        Err(EngineError::Validation)
    } else {
        Ok(())
    }
}

/// Reject a malformed event name.
pub fn event_name(name: &str) -> (r: Result<(), EngineError>)
    ensures
        r == Ok::<(), EngineError>(()) <==> spec_name_ok(name@),
        r is Err ==> r == Err::<(), EngineError>(EngineError::Validation),
{
    if is_blank(name) {
        Err(EngineError::Validation)
    } else {
        Ok(())
    }
}

} // verus!
