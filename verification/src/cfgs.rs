//! The `cfg` flags under which the generated crates are built.

use vstd::prelude::*;

use crate::config::DinghyWorkspaceConfig;
use crate::ordered::{collected, collected_is_the_ordered_set, insert_text};
use crate::text::{
    ascending, join, joined, push_text, split_of_joined, split_of_two, split_on, texts,
};

verus! {

/// What stands between two flags in `CARGO_ENCODED_RUSTFLAGS`.
pub const RUSTFLAGS_ENCODED_SEPARATOR: char = '\u{1f}';

/// A variable of the environment.
pub struct EnvVar {
    pub name: String,
    pub value: String,
}

/// The flags: the one that is always there and those that the workspace asks for, in
/// ascending order and each once.
pub open spec fn cfg_names(forward_cfgs: Seq<Seq<char>>) -> Seq<Seq<char>> {
    collected(seq!["dinghy_force_test"@] + forward_cfgs)
}

/// The flag as an argument of `--check-cfg`.
pub open spec fn check_cfg(name: Seq<char>) -> Seq<char> {
    "cfg("@ + name + ")"@
}

/// The entries of the `check-cfg` list.
pub open spec fn quoted_cfgs(names: Seq<Seq<char>>) -> Seq<Seq<char>> {
    names.map_values(|name: Seq<char>| "'"@ + check_cfg(name) + "'"@)
}

/// The line of a manifest that makes the flags known.
pub open spec fn check_cfg_line(names: Seq<Seq<char>>) -> Seq<char> {
    "unexpected_cfgs = { level = \"allow\", check-cfg = ["@ + joined(quoted_cfgs(names), ", "@)
        + "] }"@
}

/// The compiler's arguments that set the flags and make them known.
pub open spec fn flag_args(names: Seq<Seq<char>>) -> Seq<Seq<char>>
    decreases names.len(),
{
    if names.len() == 0 {
        Seq::empty()
    } else {
        flag_args(names.drop_last()) + seq![
            "--cfg"@,
            names.last(),
            "--check-cfg"@,
            check_cfg(names.last()),
        ]
    }
}

/// The flags of `earlier` and then those of `args`, with `separator` between each two.
pub open spec fn extended_flags(
    earlier: Seq<char>,
    args: Seq<Seq<char>>,
    separator: Seq<char>,
) -> Seq<char> {
    if earlier.len() == 0 {
        joined(args, separator)
    } else {
        earlier + separator + joined(args, separator)
    }
}

/// The flags of a build.
pub fn custom_cfgs(config: &DinghyWorkspaceConfig) -> (cfgs: Vec<String>)
    ensures
        texts(cfgs@) == cfg_names(config@.forward_cfgs),
        ascending(texts(cfgs@)),
        forall|name: Seq<char>| #[trigger]
            texts(cfgs@).contains(name) <==> name == "dinghy_force_test"@
                || config@.forward_cfgs.contains(name),
{
    let mut cfgs: Vec<String> = Vec::new();
    let ghost first = seq!["dinghy_force_test"@];
    let ghost all = first + config@.forward_cfgs;
    assert(texts(cfgs@) =~= collected(Seq::empty()));
    insert_text(&mut cfgs, "dinghy_force_test".to_string());
    assert(all.take(1).drop_last() =~= Seq::empty());
    let mut i: usize = 0;
    while i < config.forward_cfgs.len()
        invariant
            i <= config.forward_cfgs@.len(),
            all == seq!["dinghy_force_test"@] + config@.forward_cfgs,
            texts(cfgs@) == collected(all.take(1 + i)),
        decreases config.forward_cfgs@.len() - i,
    {
        insert_text(&mut cfgs, config.forward_cfgs[i].clone());
        assert(all.take(2 + i).drop_last() =~= all.take(1 + i));
        assert(all.take(2 + i).last() == config.forward_cfgs@[i as int]@);
        i += 1;
    }
    assert(all.take(1 + i) =~= all);
    proof {
        collected_is_the_ordered_set(all);
        assert forall|name: Seq<char>| #[trigger] texts(cfgs@).contains(name) <==> name
            == "dinghy_force_test"@ || config@.forward_cfgs.contains(name) by {
            lemma_contains_add(first, config@.forward_cfgs, name);
            assert(first[0] == "dinghy_force_test"@);
        }
    }
    cfgs
}

/// The line of a manifest that makes the flags known.
pub fn render_check_cfg_line(config: &DinghyWorkspaceConfig) -> (line: String)
    ensures
        line@ == check_cfg_line(cfg_names(config@.forward_cfgs)),
{
    let cfgs = custom_cfgs(config);
    let ghost wanted = quoted_cfgs(texts(cfgs@));
    let mut entries: Vec<String> = Vec::new();
    let mut i: usize = 0;
    assert(texts(entries@) =~= wanted.take(0));
    while i < cfgs.len()
        invariant
            i <= cfgs@.len(),
            wanted == quoted_cfgs(texts(cfgs@)),
            texts(entries@) == wanted.take(i as int),
        decreases cfgs@.len() - i,
    {
        let entry = "'".to_string().concat(check_cfg_arg(cfgs[i].as_str()).as_str()).concat("'");
        push_text(&mut entries, entry);
        i += 1;
        assert(texts(cfgs@)[i - 1] == cfgs@[i - 1]@);
        assert(wanted.take(i as int) =~= wanted.take(i - 1).push(wanted[i - 1]));
    }
    assert(wanted.take(i as int) =~= wanted);
    "unexpected_cfgs = { level = \"allow\", check-cfg = [".to_string().concat(
        join(&entries, ", ").as_str(),
    ).concat("] }")
}

fn check_cfg_arg(name: &str) -> (arg: String)
    ensures
        arg@ == check_cfg(name@),
{
    "cfg(".to_string().concat(name).concat(")")
}

/// The compiler's arguments that set the flags and make them known.
pub fn appended_cfg_flags(config: &DinghyWorkspaceConfig) -> (flags: Vec<String>)
    ensures
        texts(flags@) == flag_args(cfg_names(config@.forward_cfgs)),
{
    let cfgs = custom_cfgs(config);
    let ghost names = texts(cfgs@);
    let mut flags: Vec<String> = Vec::new();
    let mut i: usize = 0;
    assert(texts(flags@) =~= flag_args(names.take(0)));
    while i < cfgs.len()
        invariant
            i <= cfgs@.len(),
            names == texts(cfgs@),
            texts(flags@) == flag_args(names.take(i as int)),
        decreases cfgs@.len() - i,
    {
        let ghost before = texts(flags@);
        push_text(&mut flags, "--cfg".to_string());
        push_text(&mut flags, cfgs[i].clone());
        push_text(&mut flags, "--check-cfg".to_string());
        push_text(&mut flags, check_cfg_arg(cfgs[i].as_str()));
        i += 1;
        assert(names.take(i as int).drop_last() =~= names.take(i - 1));
        assert(names.take(i as int).last() == cfgs@[i - 1]@);
        assert(texts(flags@) =~= before + seq![
            "--cfg"@,
            names[i - 1],
            "--check-cfg"@,
            check_cfg(names[i - 1]),
        ]);
    }
    assert(names.take(i as int) =~= names);
    flags
}

fn extend_flags(earlier: String, flags: &Vec<String>, separator: &str) -> (value: String)
    ensures
        value@ == extended_flags(earlier@, texts(flags@), separator@),
{
    let list = join(flags, separator);
    if earlier.as_str().is_empty() {
        list
    } else {
        earlier.concat(separator).concat(list.as_str())
    }
}

/// The variable that hands the flags to Cargo. `encoded` and `plain` are what
/// `CARGO_ENCODED_RUSTFLAGS` and `RUSTFLAGS` hold; the first is extended where it is there,
/// since Cargo then passes over the second.
pub fn configure_rustflags_env(
    encoded: Option<String>,
    plain: Option<String>,
    config: &DinghyWorkspaceConfig,
) -> (variable: EnvVar)
    ensures
        match encoded {
            Some(earlier) => variable.name@ == "CARGO_ENCODED_RUSTFLAGS"@ && variable.value@
                == extended_flags(
                earlier@,
                flag_args(cfg_names(config@.forward_cfgs)),
                seq![RUSTFLAGS_ENCODED_SEPARATOR],
            ),
            None => variable.name@ == "RUSTFLAGS"@ && variable.value@ == extended_flags(
                match plain {
                    Some(earlier) => earlier@,
                    None => Seq::empty(),
                },
                flag_args(cfg_names(config@.forward_cfgs)),
                seq![' '],
            ),
        },
{
    let flags = appended_cfg_flags(config);
    if let Some(earlier) = encoded {
        let mut separator = String::new();
        separator.push(RUSTFLAGS_ENCODED_SEPARATOR);
        assert(separator@ =~= seq![RUSTFLAGS_ENCODED_SEPARATOR]);
        return EnvVar {
            name: "CARGO_ENCODED_RUSTFLAGS".to_string(),
            value: extend_flags(earlier, &flags, separator.as_str()),
        };
    }
    let earlier = match plain {
        Some(earlier) => earlier,
        None => String::new(),
    };
    proof {
        reveal_strlit(" ");
        assert(" "@ =~= seq![' ']);
    }
    EnvVar { name: "RUSTFLAGS".to_string(), value: extend_flags(earlier, &flags, " ") }
}

/// Cutting the flags at the separator gives the earlier flags back and then the new ones.
/// Names with the separator in them are left out: they would be cut in two.
pub proof fn flags_read_back(earlier: Seq<char>, forward_cfgs: Seq<Seq<char>>, separator: char)
    requires
        separator == RUSTFLAGS_ENCODED_SEPARATOR || separator == ' ',
        forall|i: int|
            0 <= i < forward_cfgs.len() ==> !(#[trigger] forward_cfgs[i]).contains(separator),
    ensures
        ({
            let args = flag_args(cfg_names(forward_cfgs));
            split_on(extended_flags(earlier, args, seq![separator]), separator) == if earlier.len()
                == 0 {
                args
            } else {
                split_on(earlier, separator) + args
            }
        }),
{
    let names = cfg_names(forward_cfgs);
    let all = seq!["dinghy_force_test"@] + forward_cfgs;
    reveal_strlit("dinghy_force_test");
    collected_is_the_ordered_set(all);
    assert(all[0] == "dinghy_force_test"@);
    assert(all.contains("dinghy_force_test"@));
    assert(names.contains("dinghy_force_test"@));
    assert forall|i: int| 0 <= i < names.len() implies !(#[trigger] names[i]).contains(
        separator,
    ) by {
        assert(names.contains(names[i]));
        lemma_contains_add(seq!["dinghy_force_test"@], forward_cfgs, names[i]);
    }
    lemma_flag_args(names, separator);
    let args = flag_args(names);
    split_of_joined(args, separator);
    split_of_two(earlier, joined(args, seq![separator]), separator);
}

proof fn lemma_flag_args(names: Seq<Seq<char>>, separator: char)
    requires
        separator == RUSTFLAGS_ENCODED_SEPARATOR || separator == ' ',
        forall|i: int| 0 <= i < names.len() ==> !(#[trigger] names[i]).contains(separator),
    ensures
        flag_args(names).len() == 4 * names.len(),
        forall|i: int|
            0 <= i < flag_args(names).len() ==> !(#[trigger] flag_args(names)[i]).contains(separator),
    decreases names.len(),
{
    if names.len() > 0 {
        reveal_strlit("--cfg");
        reveal_strlit("--check-cfg");
        reveal_strlit("cfg(");
        reveal_strlit(")");
        let front = names.drop_last();
        let name = names.last();
        assert forall|i: int| 0 <= i < front.len() implies !(#[trigger] front[i]).contains(
            separator,
        ) by {
            assert(front[i] == names[i]);
        }
        lemma_flag_args(front, separator);
        assert(!names[names.len() - 1].contains(separator));
        assert(!check_cfg(name).contains(separator)) by {
            assert forall|k: int| 0 <= k < check_cfg(name).len() implies check_cfg(name)[k]
                != separator by {
                if 4 <= k < 4 + name.len() {
                    assert(name.contains(name[k - 4]));
                }
            }
        }
        let last = seq!["--cfg"@, name, "--check-cfg"@, check_cfg(name)];
        assert forall|i: int| 0 <= i < flag_args(names).len() implies !(
        #[trigger] flag_args(names)[i]).contains(separator) by {
            if i < flag_args(front).len() {
                assert(flag_args(names)[i] == flag_args(front)[i]);
            } else {
                assert(flag_args(names)[i] == last[i - flag_args(front).len()]);
            }
        }
    }
}

proof fn lemma_contains_add(first: Seq<Seq<char>>, second: Seq<Seq<char>>, item: Seq<char>)
    ensures
        (first + second).contains(item) <==> first.contains(item) || second.contains(item),
{
    let both = first + second;
    if first.contains(item) {
        assert(both[first.index_of(item)] == item);
    }
    if second.contains(item) {
        assert(both[first.len() + second.index_of(item)] == item);
    }
    if both.contains(item) {
        let k = both.index_of(item);
        if k < first.len() {
            assert(first[k] == item);
        } else {
            assert(second[k - first.len()] == item);
        }
    }
}

} // verus!
