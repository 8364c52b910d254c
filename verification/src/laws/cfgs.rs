//! Laws on the flags of a build.

use vstd::prelude::*;

use crate::cfgs::{cfg_names, check_cfg_line, extended_flags, flag_args, quoted_cfgs};
use crate::laws::text::{joined_of_few, joined_of_two};
use crate::ordered::collected_is_the_ordered_set;
use crate::text::{joined, precedes};

verus! {

/// A build has its own flag and those that the workspace asks for, each once and in ascending
/// order, and no other.
pub proof fn build_has_the_asked_flags(forward_cfgs: Seq<Seq<char>>, name: Seq<char>, i: int, j: int)
    ensures
        cfg_names(forward_cfgs).contains(name) <==> name == "dinghy_force_test"@
            || forward_cfgs.contains(name),
        0 <= i < j < cfg_names(forward_cfgs).len() ==> precedes(
            cfg_names(forward_cfgs)[i],
            cfg_names(forward_cfgs)[j],
        ),
{
    let all = seq!["dinghy_force_test"@] + forward_cfgs;
    collected_is_the_ordered_set(all);
    assert(all[0] == "dinghy_force_test"@);
    if forward_cfgs.contains(name) {
        let k = choose|k: int| 0 <= k < forward_cfgs.len() && forward_cfgs[k] == name;
        assert(all[k + 1] == name);
    }
    if all.contains(name) && name != "dinghy_force_test"@ {
        let k = choose|k: int| 0 <= k < all.len() && all[k] == name;
        assert(forward_cfgs[k - 1] == name);
    }
}

/// Each flag is set and made known to the compiler, by four arguments in a row.
pub proof fn each_flag_has_four_arguments(names: Seq<Seq<char>>, i: int)
    requires
        0 <= i < names.len(),
    ensures
        flag_args(names).len() == 4 * names.len(),
        flag_args(names)[4 * i] == "--cfg"@,
        flag_args(names)[4 * i + 1] == names[i],
        flag_args(names)[4 * i + 2] == "--check-cfg"@,
        flag_args(names)[4 * i + 3] == "cfg("@ + names[i] + ")"@,
    decreases names.len(),
{
    let front = names.drop_last();
    if names.len() > 1 {
        each_flag_has_four_arguments(front, if i < front.len() {
            i
        } else {
            0
        });
    }
    let before = flag_args(front);
    let last = seq![
        "--cfg"@,
        names.last(),
        "--check-cfg"@,
        crate::cfgs::check_cfg(names.last()),
    ];
    assert(before.len() == 4 * front.len());
    if i < front.len() {
        assert(front[i] == names[i]);
        assert(forall|k: int| 0 <= k < before.len() ==> (before + last)[k] == before[k]);
    } else {
        assert((before + last)[4 * i] == last[0]);
        assert((before + last)[4 * i + 1] == last[1]);
        assert((before + last)[4 * i + 2] == last[2]);
        assert((before + last)[4 * i + 3] == last[3]);
    }
}

/// The line of a manifest allows unknown flags and lists each of these in quotes; one flag is
/// listed alone, and two lists are listed with a comma between them.
pub proof fn line_lists_the_flags(
    first: Seq<Seq<char>>,
    second: Seq<Seq<char>>,
    name: Seq<char>,
    i: int,
)
    requires
        first.len() > 0,
        second.len() > 0,
        0 <= i < first.len(),
    ensures
        ({
            let front = "unexpected_cfgs = { level = \"allow\", check-cfg = ["@;
            let back = "] }"@;
            &&& check_cfg_line(seq![name]) == front + ("'"@ + ("cfg("@ + name + ")"@) + "'"@) + back
            &&& check_cfg_line(first + second) == front + (joined(quoted_cfgs(first), ", "@) + ", "@
                + joined(quoted_cfgs(second), ", "@)) + back
            &&& quoted_cfgs(first).len() == first.len()
            &&& quoted_cfgs(first)[i] == "'"@ + ("cfg("@ + first[i] + ")"@) + "'"@
        }),
{
    let one = quoted_cfgs(seq![name]);
    assert(one =~= seq!["'"@ + ("cfg("@ + name + ")"@) + "'"@]);
    joined_of_few(one[0], ", "@);
    assert(quoted_cfgs(first + second) =~= quoted_cfgs(first) + quoted_cfgs(second));
    joined_of_two(quoted_cfgs(first), quoted_cfgs(second), ", "@);
}

/// Flags are put behind what was there as if that were one more of them.
pub proof fn flags_are_put_behind(earlier: Seq<char>, args: Seq<Seq<char>>, separator: Seq<char>)
    requires
        args.len() > 0,
    ensures
        earlier.len() == 0 ==> extended_flags(earlier, args, separator) == joined(args, separator),
        earlier.len() > 0 ==> extended_flags(earlier, args, separator) == joined(
            seq![earlier] + args,
            separator,
        ),
{
    joined_of_few(earlier, separator);
    joined_of_two(seq![earlier], args, separator);
}

} // verus!
