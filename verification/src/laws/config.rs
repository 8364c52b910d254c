//! Laws on the settings of a workspace.

use vstd::prelude::*;

use crate::config::{
    all_pairs, all_texts, key_index, keys_ascend, pairs_ascend, read_aliases, read_cfgs, read_list,
    read_table, with_pair, workspace_settings, ConfigError, DinghyWorkspaceConfig, Json, Member,
    Settings,
};
use crate::text::{precedes, precedes_is_total, precedes_is_transitive};

verus! {

/// Whether all items are texts.
pub open spec fn are_texts(items: Seq<Json>) -> bool {
    forall|i: int| 0 <= i < items.len() ==> (#[trigger] items[i]) is Text
}

/// Whether all members hold texts.
pub open spec fn hold_texts(members: Seq<Member>) -> bool {
    forall|i: int| 0 <= i < members.len() ==> (#[trigger] members[i]).value is Text
}

/// Whether the member at `at` is the last with its key.
pub open spec fn is_last_of_its_key(members: Seq<Member>, at: int) -> bool {
    &&& 0 <= at < members.len()
    &&& forall|j: int| at < j < members.len() ==> (#[trigger] members[j]).key@ != members[at].key@
}

/// Whether the last member with this key says this.
pub open spec fn says(members: Seq<Member>, key: Seq<char>, value: Seq<char>) -> bool {
    exists|at: int| #[trigger]
        is_last_of_its_key(members, at) && members[at].key@ == key && (members[at].value matches Json::Text(
            text,
        ) && text@ == value)
}

/// The flags are the texts of the list, all of them and in order; a list that holds anything
/// else, and what is no list, is refused.
pub proof fn flags_are_the_texts_of_the_list(value: Json)
    ensures
        match value {
            Json::List(items) => if are_texts(items@) {
                read_cfgs(value) matches Ok(flags) && flags.len() == items@.len() && forall|i: int|
                    0 <= i < flags.len() ==> ((#[trigger] items@[i]) matches Json::Text(text)
                        && text@ == flags[i])
            } else {
                read_cfgs(value) == Err::<Seq<Seq<char>>, ConfigError>(ConfigError::ForwardCfgs)
            },
            _ => read_cfgs(value) == Err::<Seq<Seq<char>>, ConfigError>(ConfigError::ForwardCfgs),
        },
{
    if let Json::List(items) = value {
        lemma_all_texts(items@);
    }
}

proof fn lemma_all_texts(items: Seq<Json>)
    ensures
        are_texts(items) ==> (all_texts(items) matches Some(list) && list.len() == items.len()
            && forall|i: int|
            0 <= i < list.len() ==> ((#[trigger] items[i]) matches Json::Text(text) && text@
                == list[i])),
        !are_texts(items) ==> all_texts(items) is None,
    decreases items.len(),
{
    if items.len() > 0 {
        let front = items.drop_last();
        lemma_all_texts(front);
        assert(items[items.len() - 1] == items.last());
        if are_texts(items) {
            assert(are_texts(front));
            let before = all_texts(front)->0;
            let list = all_texts(items)->0;
            assert forall|i: int| 0 <= i < list.len() implies ((
            #[trigger] items[i]) matches Json::Text(text) && text@ == list[i]) by {
                if i < front.len() {
                    assert(front[i] == items[i]);
                    assert(list[i] == before[i]);
                }
            }
        } else if items.last() is Text {
            assert(!are_texts(front)) by {
                if are_texts(front) {
                    assert forall|i: int| 0 <= i < items.len() implies (
                    #[trigger] items[i]) is Text by {
                        if i < front.len() {
                            assert(front[i] == items[i]);
                        }
                    }
                }
            }
        }
    }
}

proof fn lemma_with_pair(
    pairs: Seq<(Seq<char>, Seq<char>)>,
    key: Seq<char>,
    value: Seq<char>,
    pair: (Seq<char>, Seq<char>),
)
    requires
        keys_ascend(pairs),
    ensures
        with_pair(pairs, key, value).contains(pair) <==> pair == (key, value) || (pair.0 != key
            && pairs.contains(pair)),
    decreases pairs.len(),
{
    let result = with_pair(pairs, key, value);
    let keys = pairs.map_values(|pair: (Seq<char>, Seq<char>)| pair.0);
    assert(result.len() > 0);
    if pairs.len() == 0 {
        assert(result[0] == (key, value));
    } else {
        let rest = pairs.skip(1);
        assert(keys_ascend(rest)) by {
            let others = rest.map_values(|pair: (Seq<char>, Seq<char>)| pair.0);
            assert forall|i: int, j: int| 0 <= i < j < others.len() implies precedes(
                #[trigger] others[i],
                #[trigger] others[j],
            ) by {
                assert(others[i] == keys[i + 1] && others[j] == keys[j + 1]);
            }
        }
        assert forall|i: int| 0 < i < pairs.len() implies precedes(pairs[0].0, (
        #[trigger] pairs[i]).0) by {
            assert(keys[0] == pairs[0].0 && keys[i] == pairs[i].0);
        }
        lemma_rest_contains(pairs, pair);
        if pairs[0].0 == key {
            lemma_first_contains((key, value), rest, pair);
            if rest.contains(pair) {
                let i = choose|i: int| 0 <= i < rest.len() && rest[i] == pair;
                assert(pairs[i + 1] == pair);
                precedes_is_total(key, key);
            }
        } else if precedes(key, pairs[0].0) {
            lemma_first_contains((key, value), pairs, pair);
            if pairs.contains(pair) {
                let i = choose|i: int| 0 <= i < pairs.len() && pairs[i] == pair;
                if i > 0 {
                    precedes_is_transitive(key, pairs[0].0, pairs[i].0);
                }
                precedes_is_total(key, key);
            }
        } else {
            lemma_first_contains(pairs[0], with_pair(rest, key, value), pair);
            lemma_with_pair(rest, key, value, pair);
        }
    }
}

proof fn lemma_first_contains(
    first: (Seq<char>, Seq<char>),
    rest: Seq<(Seq<char>, Seq<char>)>,
    pair: (Seq<char>, Seq<char>),
)
    ensures
        (seq![first] + rest).contains(pair) <==> pair == first || rest.contains(pair),
{
    let all = seq![first] + rest;
    assert(all[0] == first);
    if rest.contains(pair) {
        let i = choose|i: int| 0 <= i < rest.len() && rest[i] == pair;
        assert(all[i + 1] == pair);
    }
    if all.contains(pair) && pair != first {
        let i = choose|i: int| 0 <= i < all.len() && all[i] == pair;
        assert(rest[i - 1] == pair);
    }
}

proof fn lemma_rest_contains(
    pairs: Seq<(Seq<char>, Seq<char>)>,
    pair: (Seq<char>, Seq<char>),
)
    requires
        pairs.len() > 0,
    ensures
        pairs.contains(pair) <==> pair == pairs[0] || pairs.skip(1).contains(pair),
{
    lemma_first_contains(pairs[0], pairs.skip(1), pair);
    assert(seq![pairs[0]] + pairs.skip(1) =~= pairs);
}

/// The aliases are those of the table, where the last member with a key counts; a table that
/// holds anything but texts, and what is no table, is refused.
pub proof fn aliases_are_the_members_of_the_table(value: Json, key: Seq<char>, to: Seq<char>)
    ensures
        match value {
            Json::Object(members) => if hold_texts(members@) {
                read_aliases(value) matches Ok(pairs) && (pairs.contains((key, to)) <==> says(
                    members@,
                    key,
                    to,
                ))
            } else {
                read_aliases(value) == Err::<Seq<(Seq<char>, Seq<char>)>, ConfigError>(
                    ConfigError::TestAttributeAliases,
                )
            },
            _ => read_aliases(value) == Err::<Seq<(Seq<char>, Seq<char>)>, ConfigError>(
                ConfigError::TestAttributeAliases,
            ),
        },
{
    if let Json::Object(members) = value {
        lemma_all_pairs(members@, key, to);
    }
}

proof fn lemma_all_pairs(members: Seq<Member>, key: Seq<char>, to: Seq<char>)
    ensures
        hold_texts(members) ==> (all_pairs(members) matches Some(pairs) && (pairs.contains(
            (key, to),
        ) <==> says(members, key, to))),
        !hold_texts(members) ==> all_pairs(members) is None,
    decreases members.len(),
{
    if members.len() == 0 {
        assert(!says(members, key, to));
    } else {
        let front = members.drop_last();
        let last = members.last();
        let end = members.len() - 1;
        assert(members[end] == last);
        lemma_all_pairs(front, key, to);
        if hold_texts(members) {
            assert forall|i: int| 0 <= i < front.len() implies (
            #[trigger] front[i]).value is Text by {
                assert(front[i] == members[i]);
            }
            let before = all_pairs(front)->0;
            let text = last.value->Text_0;
            pairs_ascend(front);
            lemma_with_pair(before, last.key@, text@, (key, to));
            assert(is_last_of_its_key(members, end));
            if last.key@ == key {
                assert(says(members, key, to) <==> text@ == to) by {
                    if says(members, key, to) {
                        let at = choose|at: int| #[trigger]
                            is_last_of_its_key(members, at) && members[at].key@ == key
                                && (members[at].value matches Json::Text(text) && text@ == to);
                        assert(at == end);
                    }
                }
            } else {
                assert(says(members, key, to) <==> says(front, key, to)) by {
                    if says(members, key, to) {
                        let at = choose|at: int| #[trigger]
                            is_last_of_its_key(members, at) && members[at].key@ == key
                                && (members[at].value matches Json::Text(text) && text@ == to);
                        assert(front[at] == members[at]);
                        assert forall|j: int| at < j < front.len() implies (
                        #[trigger] front[j]).key@ != front[at].key@ by {
                            assert(front[j] == members[j]);
                        }
                        assert(is_last_of_its_key(front, at));
                    }
                    if says(front, key, to) {
                        let at = choose|at: int| #[trigger]
                            is_last_of_its_key(front, at) && front[at].key@ == key
                                && (front[at].value matches Json::Text(text) && text@ == to);
                        assert(front[at] == members[at]);
                        assert forall|j: int| at < j < members.len() implies (
                        #[trigger] members[j]).key@ != members[at].key@ by {
                            if j < front.len() {
                                assert(front[j] == members[j]);
                            }
                        }
                        assert(is_last_of_its_key(members, at));
                    }
                }
            }
        } else if last.value is Text {
            assert(!hold_texts(front)) by {
                if hold_texts(front) {
                    assert forall|i: int| 0 <= i < members.len() implies (
                    #[trigger] members[i]).value is Text by {
                        if i < front.len() {
                            assert(front[i] == members[i]);
                        }
                    }
                }
            }
        }
    }
}

/// A member more is refused if its field is unknown or was there before; otherwise its value is
/// read, and the other setting stays. What is wrong in front stays the error.
pub proof fn member_more_sets_its_field(members: Seq<Member>, member: Member)
    ensures
        ({
            let result = read_table(members.push(member));
            let key = member.key@;
            let known = key == "forward-cfgs"@ || key == "test-attribute-aliases"@;
            match read_table(members) {
                Err(error) => result == Err::<Settings, ConfigError>(error),
                Ok(before) => {
                    &&& !known ==> result == Err::<Settings, ConfigError>(ConfigError::UnknownField)
                    &&& known && (exists|i: int|
                        0 <= i < members.len() && (#[trigger] members[i]).key@ == key)
                        ==> result == Err::<Settings, ConfigError>(ConfigError::DuplicateField)
                    &&& known && !(exists|i: int|
                        0 <= i < members.len() && (#[trigger] members[i]).key@ == key) ==> {
                        &&& key == "forward-cfgs"@ ==> match read_cfgs(member.value) {
                            Ok(flags) => result matches Ok(now) && now.forward_cfgs == flags
                                && now.aliases == before.aliases,
                            Err(error) => result == Err::<Settings, ConfigError>(error),
                        }
                        &&& key == "test-attribute-aliases"@ ==> match read_aliases(member.value) {
                            Ok(pairs) => result matches Ok(now) && now.aliases == pairs
                                && now.forward_cfgs == before.forward_cfgs,
                            Err(error) => result == Err::<Settings, ConfigError>(error),
                        }
                    }
                },
            }
        }),
        read_table(Seq::empty()) matches Ok(none) && none.forward_cfgs.len() == 0
            && none.aliases.len() == 0,
{
    reveal_strlit("forward-cfgs");
    reveal_strlit("test-attribute-aliases");
    assert("forward-cfgs"@.len() != "test-attribute-aliases"@.len());
    assert(members.push(member).drop_last() =~= members);
    assert(members.push(member).last() == member);
}

/// Settings can be given as a list of one or two: the flags, then the aliases.
pub proof fn settings_in_a_list(items: Seq<Json>)
    ensures
        items.len() == 0 ==> (read_list(items) matches Ok(none) && none.forward_cfgs.len() == 0
            && none.aliases.len() == 0),
        items.len() > 0 ==> match read_cfgs(items[0]) {
            Err(error) => read_list(items) == Err::<Settings, ConfigError>(error),
            Ok(flags) => if items.len() == 1 {
                read_list(items) matches Ok(now) && now.forward_cfgs == flags && now.aliases.len()
                    == 0
            } else {
                match read_aliases(items[1]) {
                    Err(error) => read_list(items) == Err::<Settings, ConfigError>(error),
                    Ok(pairs) => if items.len() == 2 {
                        read_list(items) matches Ok(now) && now.forward_cfgs == flags
                            && now.aliases == pairs
                    } else {
                        read_list(items) == Err::<Settings, ConfigError>(ConfigError::TooLong)
                    },
                }
            },
        },
{
}

/// The settings stand in the first member `dinghy` of the metadata, as a table or a list;
/// without it there are none.
pub proof fn settings_stand_under_their_key(members: Seq<Member>, metadata: Json, at: int)
    requires
        metadata matches Json::Object(all) && all@ == members,
        0 <= at <= members.len(),
        forall|i: int| 0 <= i < at ==> (#[trigger] members[i]).key@ != "dinghy"@,
        at < members.len() ==> members[at].key@ == "dinghy"@,
    ensures
        at == members.len() ==> (workspace_settings(metadata) matches Ok(none)
            && none.forward_cfgs.len() == 0 && none.aliases.len() == 0),
        at < members.len() ==> match members[at].value {
            Json::Object(table) => workspace_settings(metadata) == read_table(table@),
            Json::List(items) => workspace_settings(metadata) == read_list(items@),
            _ => workspace_settings(metadata) == Err::<Settings, ConfigError>(
                ConfigError::NotATable,
            ),
        },
{
    lemma_key_index(members, at);
}

proof fn lemma_key_index(members: Seq<Member>, at: int)
    requires
        0 <= at <= members.len(),
        forall|i: int| 0 <= i < at ==> (#[trigger] members[i]).key@ != "dinghy"@,
        at < members.len() ==> members[at].key@ == "dinghy"@,
    ensures
        key_index(members, "dinghy"@) == at,
    decreases at,
{
    if at > 0 {
        let rest = members.skip(1);
        assert(members[0].key@ != "dinghy"@);
        assert forall|i: int| 0 <= i < at - 1 implies (#[trigger] rest[i]).key@ != "dinghy"@ by {
            assert(rest[i] == members[i + 1]);
        }
        lemma_key_index(rest, at - 1);
    }
}

/// The settings are seen with their texts, in order, and aliases that are valid ascend.
pub proof fn settings_are_seen_with_their_texts(config: DinghyWorkspaceConfig, i: int, j: int)
    ensures
        config@.forward_cfgs.len() == config.forward_cfgs@.len(),
        0 <= i < config.forward_cfgs@.len() ==> config@.forward_cfgs[i] == config.forward_cfgs@[i]@,
        config@.aliases.len() == config.test_attribute_aliases@.len(),
        0 <= i < config.test_attribute_aliases@.len() ==> config@.aliases[i] == (
            config.test_attribute_aliases@[i].0@,
            config.test_attribute_aliases@[i].1@,
        ),
        config.valid() && 0 <= i < j < config@.aliases.len() ==> precedes(
            config@.aliases[i].0,
            config@.aliases[j].0,
        ),
{
    let keys = config@.aliases.map_values(|pair: (Seq<char>, Seq<char>)| pair.0);
    if 0 <= i < j < keys.len() {
        assert(keys[i] == config@.aliases[i].0 && keys[j] == config@.aliases[j].0);
    }
}

/// Metadata that is no table holds no settings.
pub proof fn other_metadata_holds_none(metadata: Json)
    requires
        !(metadata is Object),
    ensures
        workspace_settings(metadata) matches Ok(none) && none.forward_cfgs.len() == 0
            && none.aliases.len() == 0,
{
}

} // verus!
