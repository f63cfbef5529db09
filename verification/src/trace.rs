//! The decision half of tracing and configuration: which label a trace
//! level carries and whether a line at that level is emitted at all, and
//! how the command line is read. Painting, printing and the process
//! environment stay with the embedding program, which hands the argument
//! list in as plain values.

use vstd::prelude::*;

verus! {

/// The label a trace level carries, or nothing when a line at that level
/// is not emitted: the five named levels always are, every other level only
/// while debugging is enabled.
pub open spec fn level_label(level: i8, debug_enabled: bool) -> Option<Seq<char>> {
    if level == 1 {
        Some("INFO"@)
    } else if level == 2 {
        Some("WARN"@)
    } else if level == 3 {
        Some("ERROR"@)
    } else if level == 4 {
        Some("EVENT"@)
    } else if level == 27 {
        Some("SECURITY"@)
    } else if debug_enabled {
        Some("DEBUG"@)
    } else {
        None
    }
}

/// The label for one trace line, or nothing when the line is suppressed.
pub fn log_level_label(level: i8, debug_enabled: bool) -> (r: Option<String>)
    ensures
        r is Some <==> level_label(level, debug_enabled) is Some,
        r is Some ==> r->Some_0@ == level_label(level, debug_enabled)->Some_0,
{
    if level == 1 {
        Some("INFO".to_owned())
    } else if level == 2 {
        Some("WARN".to_owned())
    } else if level == 3 {
        Some("ERROR".to_owned())
    } else if level == 4 {
        Some("EVENT".to_owned())
    } else if level == 27 {
        Some("SECURITY".to_owned())
    } else if debug_enabled {
        Some("DEBUG".to_owned())
    } else {
        None
    }
}

/// Whether the argument list switches debugging on.
pub fn debug_flag_present(args: &Vec<String>) -> (r: bool)
    ensures
        r == (exists|i: int| 0 <= i < args@.len() && #[trigger] args@[i]@ == "--debug"@),
{
    let flag: String = "--debug".to_owned();
    let n = args.len();
    let mut j: usize = 0;
    while j < n
        invariant
            j <= n,
            n == args@.len(),
            flag@ == "--debug"@,
            forall|i: int| 0 <= i < j ==> #[trigger] args@[i]@ != "--debug"@,
        decreases n - j,
    {
        if args[j].eq(&flag) {
            return true;
        }
        j += 1;
    }
    false
}

/// The word the banner prints for the debug switch.
pub fn debug_mode_text(debug_enabled: bool) -> (r: String)
    ensures
        debug_enabled ==> r@ == "enable"@,
        !debug_enabled ==> r@ == "disable"@,
{
    if debug_enabled {
        "enable".to_owned()
    } else {
        "disable".to_owned()
    }
}

/// The configuration path named after the first `--config` switch, or
/// nothing when no switch is followed by a value.
pub fn config_path_from_args(args: &Vec<String>) -> (r: Option<String>)
    ensures
        (match r {
            Some(s) => exists|i: int|
                0 <= i < args@.len() - 1 && #[trigger] args@[i]@ == "--config"@ && s@ == args@[i
                    + 1]@ && (forall|j: int| 0 <= j < i ==> #[trigger] args@[j]@ != "--config"@),
            None => forall|i: int| 0 <= i < args@.len() - 1 ==> #[trigger] args@[i]@ != "--config"@,
        }),
{
    let flag: String = "--config".to_owned();
    let n = args.len();
    let mut j: usize = 0;
    while j < n
        invariant
            j <= n,
            n == args@.len(),
            flag@ == "--config"@,
            forall|i: int| 0 <= i < j ==> #[trigger] args@[i]@ != "--config"@,
        decreases n - j,
    {
        if args[j].eq(&flag) {
            if j + 1 < n {
                return Some(args[j + 1].clone());
            } else {
                return None;
            }
        }
        j += 1;
    }
    None
}

} // verus!
