//! Which processes need their command line read.

use vstd::prelude::*;

use crate::identity::deny;
use crate::text;
use crate::text::{has_prefix, same, to_lower, without_suffixes};

verus! {

/// The names of Steam's launch wrappers.
pub open spec fn launches(name: Seq<char>) -> bool {
    let stem = deny::stem(name);
    ||| stem == "reaper"@
    ||| stem == "steam-launch-wrapper"@
    ||| stem == "steamlaunch"@
    ||| text::starts_with(stem, "steam-launch"@)
}

/// Whether the command line of a process of this name may hold a Steam marker.
pub fn needs_launch_cmdline(process_name: &str) -> (r: bool)
    ensures
        r == launches(process_name@),
{
    let low = to_lower(process_name);
    let stem = without_suffixes(low.as_str(), ".exe");
    same(stem.as_str(), "reaper") || same(stem.as_str(), "steam-launch-wrapper") || same(
        stem.as_str(),
        "steamlaunch",
    ) || has_prefix(stem.as_str(), "steam-launch")
}

/// The command line that is recorded of a process: only that of a launch
/// wrapper, its arguments joined by spaces; none where it has no arguments.
pub open spec fn recorded_cmdline(name: Seq<char>, args: Seq<Seq<char>>) -> Option<Seq<char>> {
    if launches(name) && args.len() > 0 {
        Some(spaced(args))
    } else {
        None
    }
}

/// The texts with a space between each two.
pub open spec fn spaced(args: Seq<Seq<char>>) -> Seq<char>
    decreases args.len(),
{
    if args.len() == 0 {
        Seq::empty()
    } else if args.len() == 1 {
        args[0]
    } else {
        spaced(args.drop_last()) + " "@ + args.last()
    }
}

/// The command line that is recorded of a process with this name and these
/// arguments.
pub fn launch_cmdline(name: &str, args: &Vec<String>) -> (r: Option<String>)
    ensures
        text::opt_view(r) == recorded_cmdline(name@, text::views(args@)),
{
    if !needs_launch_cmdline(name) || args.len() == 0 {
        return None;
    }
    let ghost all = text::views(args@);
    let mut t = args[0].clone();
    let mut i: usize = 1;
    assert(all.take(1)[0] == args@[0]@);
    while i < args.len()
        invariant
            1 <= i <= args@.len(),
            all == text::views(args@),
            t@ == spaced(all.take(i as int)),
        decreases args.len() - i,
    {
        assert(all.take(i + 1).drop_last() == all.take(i as int));
        assert(all.take(i + 1).last() == args@[i as int]@);
        t.append(" ");
        t.append(args[i].as_str());
        i = i + 1;
    }
    assert(all.take(i as int) == all);
    Some(t)
}

} // verus!
