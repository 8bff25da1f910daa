//! Parsing of raw command-line arguments into flag/value pairs.

use vstd::prelude::*;
use vstd::string::*;

verus! {

/// Turns raw arguments into flag/value pairs: after the program name, the
/// arguments alternate between a flag (its leading `--` stripped) and the
/// flag's value, in the order given.  On lookup, a flag repeated later
/// supersedes an earlier occurrence.
///
/// Callers must pass a complete command line: a program name followed by at
/// least one full flag/value pair, with no pair left incomplete and every
/// flag carrying its `--` prefix.
pub fn parser(args: Vec<String>) -> (r: Vec<(String, String)>)
    requires
        args@.len() >= 3,
        args@.len() % 2 == 1,
        forall|i: int|
            1 <= i < args@.len() && i % 2 == 1 ==> (#[trigger] args@[i])@.len() >= 2
                && args@[i]@.subrange(0, 2) == "--"@,
    ensures
        r@.len() == (args@.len() - 1) / 2,
        forall|k: int|
            0 <= k < r@.len() ==> (#[trigger] r@[k]).0@ == args@[2 * k + 1]@.subrange(
                2,
                args@[2 * k + 1]@.len() as int,
            ) && r@[k].1@ == args@[2 * k + 2]@,
{
    let mut map: Vec<(String, String)> = Vec::new();
    let mut i: usize = 1;
    while i < args.len() - 1
        invariant
            args@.len() >= 3,
            args@.len() % 2 == 1,
            forall|t: int|
                1 <= t < args@.len() && t % 2 == 1 ==> (#[trigger] args@[t])@.len() >= 2,
            1 <= i <= args@.len(),
            i % 2 == 1,
            map@.len() == (i - 1) / 2,
            forall|k: int|
                0 <= k < map@.len() ==> (#[trigger] map@[k]).0@ == args@[2 * k + 1]@.subrange(
                    2,
                    args@[2 * k + 1]@.len() as int,
                ) && map@[k].1@ == args@[2 * k + 2]@,
        decreases args@.len() - i,
    {
        let flag = &args[i];
        let n = flag.as_str().unicode_len();
        let key = String::from_str(flag.as_str().substring_char(2, n));
        let value = args[i + 1].clone();
        map.push((key, value));
        i = i + 2;
    }
    map
}

} // verus!
