use vstd::prelude::*;

verus! {

/// Why wtop refuses to request termination of a process, if it does:
/// PID 0 and PID 4 are core Windows processes, and wtop never targets
/// itself. Windows access control remains authoritative for every other
/// process.
pub open spec fn refusal_reason(pid: u32, own_pid: u32) -> Option<Seq<char>> {
    if pid == 0 || pid == 4 {
        Some("wtop will not terminate a core Windows process"@)
    } else if pid == own_pid {
        Some("wtop will not terminate itself"@)
    } else {
        None
    }
}

/// Checks a termination request before any handle is opened: `Ok` when the
/// request may go to Windows, otherwise the reason it is refused.
pub fn termination_refusal(pid: u32, own_pid: u32) -> (checked: Result<(), String>)
    ensures
        match checked {
            Ok(()) => refusal_reason(pid, own_pid) is None,
            Err(reason) => refusal_reason(pid, own_pid) == Some(reason@),
        },
{
    if pid == 0 || pid == 4 {
        return Err("wtop will not terminate a core Windows process".to_string());
    }
    if pid == own_pid {
        return Err("wtop will not terminate itself".to_string());
    }
    Ok(())
}

} // verus!
