//! Building a project: which arguments the compiler gets.

use crate::names::texts;
use crate::text::{chars_of, has_prefix, same_str, starts_with};
use vstd::prelude::*;

verus! {

/// The argument asks for debug information.
pub open spec fn is_debug_flag(arg: Seq<char>) -> bool {
    arg == "-d2"@ || arg == "-d3"@
}

/// The argument sets the optimisation level.
pub open spec fn is_optimisation_flag(arg: Seq<char>) -> bool {
    starts_with(arg, "-O"@)
}

/// Whether one of the arguments asks for debug information.
pub open spec fn has_debug_flag(args: Seq<Seq<char>>) -> bool {
    exists|i: int| 0 <= i < args.len() && is_debug_flag(#[trigger] args[i])
}

/// The arguments that the compiler gets: all of them, but for the
/// optimisation flags that come after a debug flag.
pub open spec fn compiler_arguments(args: Seq<Seq<char>>) -> Seq<Seq<char>>
    decreases args.len(),
{
    if args.len() == 0 {
        Seq::empty()
    } else {
        let front = args.drop_last();
        let a = args.last();
        if !is_debug_flag(a) && is_optimisation_flag(a) && has_debug_flag(front) {
            compiler_arguments(front)
        } else {
            compiler_arguments(front).push(a)
        }
    }
}

/// Decides how the compiler is called.
#[derive(Debug, Clone, Copy, Default)]
pub struct BuildCommand {}

impl BuildCommand {
    /// The command; it holds no state.
    pub fn new() -> (r: BuildCommand) {
        BuildCommand {  }
    }

    /// The arguments that the compiler gets, and whether a debug flag is
    /// among them.
    pub fn process_args(&self, args: &Vec<String>) -> (r: (Vec<String>, bool))
        ensures
            texts(r.0@) == compiler_arguments(texts(args@)),
            r.1 == has_debug_flag(texts(args@)),
    {
        let ghost all = texts(args@);
        let mut out: Vec<String> = Vec::new();
        let mut debug = false;
        let d2 = "-d2";
        let d3 = "-d3";
        let o = chars_of("-O");
        let mut i: usize = 0;
        assert(texts(out@) =~= compiler_arguments(all.take(0)));
        while i < args.len()
            invariant
                i <= args.len(),
                all == texts(args@),
                o@ == "-O"@,
                d2@ == "-d2"@,
                d3@ == "-d3"@,
                texts(out@) == compiler_arguments(all.take(i as int)),
                debug == has_debug_flag(all.take(i as int)),
            decreases args.len() - i,
        {
            let ghost front = all.take(i as int);
            let ghost next = all.take(i + 1);
            proof {
                assert(next.drop_last() =~= front);
                assert(next.last() == args@[i as int]@);
            }
            let arg = args[i].as_str();
            let is_debug = same_str(arg, d2) || same_str(arg, d3);
            let chars = chars_of(arg);
            let skip = !is_debug && has_prefix(chars.as_slice(), o.as_slice()) && debug;
            if !skip {
                let ghost before = texts(out@);
                out.push(args[i].clone());
                assert(texts(out@) =~= before.push(args@[i as int]@));
            }
            proof {
                if has_debug_flag(next) {
                    let k = choose|k: int| 0 <= k < next.len() && is_debug_flag(#[trigger] next[k]);
                    if k < i {
                        assert(front[k] == next[k]);
                    }
                }
                if has_debug_flag(front) {
                    let k = choose|k: int|
                        0 <= k < front.len() && is_debug_flag(#[trigger] front[k]);
                    assert(next[k] == front[k]);
                }
                if is_debug {
                    assert(is_debug_flag(next[i as int]));
                }
            }
            debug = debug || is_debug;
            i += 1;
        }
        assert(all.take(args.len() as int) =~= all);
        (out, debug)
    }
}

} // verus!
