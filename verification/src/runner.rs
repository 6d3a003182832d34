//! The texts and outcomes of install / uninstall / upgrade runs.
//!
//! The caller spawns the command and streams its output; these functions
//! decide what the run reports when it starts and when it ends.
use vstd::prelude::*;

use crate::text::{decimal, push_decimal, push_str};
use crate::types::{string_views, ActionKind, TerminalLine};

verus! {

/// The past-tense verb of an action.
pub open spec fn action_verb(kind: ActionKind) -> Seq<char> {
    match kind {
        ActionKind::Install => "Installed"@,
        ActionKind::Uninstall => "Uninstalled"@,
        ActionKind::Upgrade => "Upgraded"@,
    }
}

/// Human-readable label for an action, used in notifications:
/// `Installed Node.js`.
pub fn action_label(kind: ActionKind, subject: &str) -> (r: String)
    ensures
        r@ == action_verb(kind) + " "@ + subject@,
{
    let verb = match kind {
        ActionKind::Install => "Installed",
        ActionKind::Uninstall => "Uninstalled",
        ActionKind::Upgrade => "Upgraded",
    };
    let mut r = String::from_str(verb);
    push_str(&mut r, " ");
    push_str(&mut r, subject);
    r
}

/// The words joined by single spaces.
pub open spec fn join_words(ws: Seq<Seq<char>>) -> Seq<char>
    decreases ws.len(),
{
    if ws.len() == 0 {
        Seq::empty()
    } else if ws.len() == 1 {
        ws[0]
    } else {
        join_words(ws.drop_last()) + " "@ + ws.last()
    }
}

/// The first line a run reports: the command it runs, after a `$ `; an
/// empty command is refused.
pub fn run_start(argv: &Vec<String>) -> (r: Result<TerminalLine, String>)
    ensures
        argv@.len() == 0 ==> (r matches Err(e) && e@ == "empty command"@),
        argv@.len() > 0 ==> (r matches Ok(TerminalLine::Status { text }) && text@ == "$ "@
            + join_words(string_views(argv@))),
{
    if argv.len() == 0 {
        return Err(String::from_str("empty command"));
    }
    let ghost ws = string_views(argv@);
    let mut text = String::from_str("$ ");
    let mut i: usize = 0;
    proof {
        assert(ws.take(0) =~= Seq::<Seq<char>>::empty());
    }
    while i < argv.len()
        invariant
            ws == string_views(argv@),
            i <= argv.len(),
            text@ == "$ "@ + join_words(ws.take(i as int)),
        decreases argv.len() - i,
    {
        proof {
            assert(ws.take(i + 1).drop_last() =~= ws.take(i as int));
            assert(ws.take(i + 1).last() == argv@[i as int]@);
        }
        if i > 0 {
            push_str(&mut text, " ");
        }
        push_str(&mut text, argv[i].as_str());
        proof {
            if i > 0 {
                assert(text@ =~= "$ "@ + join_words(ws.take(i + 1)));
            } else {
                assert(ws.take(1)[0] == argv@[0]@);
                assert(text@ =~= "$ "@ + join_words(ws.take(1)));
            }
        }
        i = i + 1;
    }
    proof {
        assert(ws.take(argv@.len() as int) =~= ws);
    }
    Ok(TerminalLine::Status { text })
}

/// The decimal text of a signed number.
pub open spec fn signed_decimal(n: int) -> Seq<char> {
    if n < 0 {
        "-"@ + decimal((-n) as nat)
    } else {
        decimal(n as nat)
    }
}

/// The message of a run that failed with an exit code (`-1` when the process
/// was ended by a signal).
pub open spec fn exit_message(code: Option<i32>) -> Seq<char> {
    "exited with code "@ + signed_decimal(
        match code {
            Some(c) => c as int,
            None => -1,
        },
    )
}

/// How a finished run is reported: the last terminal line and the result.
/// A cancelled run fails as cancelled whatever its exit; otherwise the exit
/// status decides.
pub fn run_completion(cancelled: bool, success: bool, code: Option<i32>) -> (r: (
    TerminalLine,
    Result<(), String>,
))
    ensures
        cancelled ==> {
            &&& r.0 matches TerminalLine::Done { success: false, message } && message@
                == "Cancelled by user."@
            &&& r.1 matches Err(e) && e@ == "cancelled"@
        },
        !cancelled && success ==> {
            &&& r.0 matches TerminalLine::Done { success: true, message } && message@
                == "Completed successfully."@
            &&& r.1 is Ok
        },
        !cancelled && !success ==> {
            &&& r.0 matches TerminalLine::Done { success: false, message } && message@
                == exit_message(code)
            &&& r.1 matches Err(e) && e@ == exit_message(code)
        },
{
    if cancelled {
        return (
            TerminalLine::Done { success: false, message: String::from_str("Cancelled by user.") },
            Err(String::from_str("cancelled")),
        );
    }
    if success {
        return (
            TerminalLine::Done { success: true, message: String::from_str("Completed successfully.") },
            Ok(()),
        );
    }
    let c: i32 = match code {
        Some(c) => c,
        None => -1,
    };
    let mut msg = String::from_str("exited with code ");
    if c < 0 {
        push_str(&mut msg, "-");
        let magnitude: u64 = (-(c as i64)) as u64;
        push_decimal(&mut msg, magnitude);
    } else {
        push_decimal(&mut msg, c as u64);
    }
    let msg2 = msg.clone();
    (TerminalLine::Done { success: false, message: msg }, Err(msg2))
}

} // verus!
