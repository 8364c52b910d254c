//! The settings that a workspace keeps in its metadata.

use vstd::prelude::*;

use crate::text::{
    ascending, comes_before, precedes, precedes_is_total, precedes_is_transitive, push_text, same_text,
    texts,
};

verus! {

/// A value of the workspace metadata.
pub enum Json {
    /// `null`, a boolean or a number.
    Scalar,
    Text(String),
    List(Vec<Json>),
    Object(Vec<Member>),
}

/// One member of an object.
pub struct Member {
    pub key: String,
    pub value: Json,
}

/// The settings of a workspace.
pub struct DinghyWorkspaceConfig {
    /// The `cfg` flags under which the generated crates are built too.
    pub forward_cfgs: Vec<String>,
    /// Attributes and what stands for them in the generated sources, in ascending order of
    /// the attributes, none of which is there twice.
    pub test_attribute_aliases: Vec<(String, String)>,
}

/// Why the settings were not understood.
#[derive(Clone, Copy, Debug, PartialEq, Eq, Structural)]
pub enum ConfigError {
    /// The settings are neither a table nor a list of the two settings.
    NotATable,
    /// The list holds more than the two settings.
    TooLong,
    UnknownField,
    DuplicateField,
    /// `forward-cfgs` is not a list of texts.
    ForwardCfgs,
    /// `test-attribute-aliases` is not a table of texts.
    TestAttributeAliases,
}

/// What a `DinghyWorkspaceConfig` stands for.
pub struct Settings {
    pub forward_cfgs: Seq<Seq<char>>,
    pub aliases: Seq<(Seq<char>, Seq<char>)>,
}

/// The texts of a list of pairs.
pub open spec fn pair_texts(pairs: Seq<(String, String)>) -> Seq<(Seq<char>, Seq<char>)> {
    pairs.map_values(|pair: (String, String)| (pair.0@, pair.1@))
}

impl View for DinghyWorkspaceConfig {
    type V = Settings;

    open spec fn view(&self) -> Settings {
        Settings {
            forward_cfgs: texts(self.forward_cfgs@),
            aliases: pair_texts(self.test_attribute_aliases@),
        }
    }
}

/// No settings.
pub open spec fn no_settings() -> Settings {
    Settings { forward_cfgs: Seq::empty(), aliases: Seq::empty() }
}

/// Whether the first texts of the pairs ascend.
pub open spec fn keys_ascend(pairs: Seq<(Seq<char>, Seq<char>)>) -> bool {
    ascending(pairs.map_values(|pair: (Seq<char>, Seq<char>)| pair.0))
}

/// The pairs with one more at its place; one with the same key goes.
pub open spec fn with_pair(
    pairs: Seq<(Seq<char>, Seq<char>)>,
    key: Seq<char>,
    value: Seq<char>,
) -> Seq<(Seq<char>, Seq<char>)>
    decreases pairs.len(),
{
    if pairs.len() == 0 {
        seq![(key, value)]
    } else if pairs[0].0 == key {
        seq![(key, value)] + pairs.skip(1)
    } else if precedes(key, pairs[0].0) {
        seq![(key, value)] + pairs
    } else {
        seq![pairs[0]] + with_pair(pairs.skip(1), key, value)
    }
}

/// The texts of a list that holds nothing else.
pub open spec fn all_texts(items: Seq<Json>) -> Option<Seq<Seq<char>>>
    decreases items.len(),
{
    if items.len() == 0 {
        Some(Seq::empty())
    } else {
        match (all_texts(items.drop_last()), items.last()) {
            (Some(before), Json::Text(text)) => Some(before.push(text@)),
            _ => None,
        }
    }
}

/// The pairs of an object that holds nothing but texts, in ascending order.
pub open spec fn all_pairs(members: Seq<Member>) -> Option<Seq<(Seq<char>, Seq<char>)>>
    decreases members.len(),
{
    if members.len() == 0 {
        Some(Seq::empty())
    } else {
        match (all_pairs(members.drop_last()), members.last().value) {
            (Some(before), Json::Text(text)) => Some(
                with_pair(before, members.last().key@, text@),
            ),
            _ => None,
        }
    }
}

/// The value of `forward-cfgs`.
pub open spec fn read_cfgs(value: Json) -> Result<Seq<Seq<char>>, ConfigError> {
    match value {
        Json::List(items) => match all_texts(items@) {
            Some(list) => Ok(list),
            None => Err(ConfigError::ForwardCfgs),
        },
        _ => Err(ConfigError::ForwardCfgs),
    }
}

/// The value of `test-attribute-aliases`.
pub open spec fn read_aliases(value: Json) -> Result<Seq<(Seq<char>, Seq<char>)>, ConfigError> {
    match value {
        Json::Object(members) => match all_pairs(members@) {
            Some(pairs) => Ok(pairs),
            None => Err(ConfigError::TestAttributeAliases),
        },
        _ => Err(ConfigError::TestAttributeAliases),
    }
}

/// Whether an object has a member with the key.
pub open spec fn has_key(members: Seq<Member>, key: Seq<char>) -> bool {
    exists|i: int| 0 <= i < members.len() && (#[trigger] members[i]).key@ == key
}

/// The settings of a table. The members are read in order, and the first that is wrong
/// decides the error.
pub open spec fn read_table(members: Seq<Member>) -> Result<Settings, ConfigError>
    decreases members.len(),
{
    if members.len() == 0 {
        Ok(no_settings())
    } else {
        match read_table(members.drop_last()) {
            Err(error) => Err(error),
            Ok(before) => read_member(before, members.drop_last(), members.last()),
        }
    }
}

/// The settings with one member more.
pub open spec fn read_member(before: Settings, earlier: Seq<Member>, member: Member) -> Result<
    Settings,
    ConfigError,
> {
    let key = member.key@;
    if key != "forward-cfgs"@ && key != "test-attribute-aliases"@ {
        Err(ConfigError::UnknownField)
    } else if has_key(earlier, key) {
        Err(ConfigError::DuplicateField)
    } else if key == "forward-cfgs"@ {
        match read_cfgs(member.value) {
            Ok(forward_cfgs) => Ok(Settings { forward_cfgs, ..before }),
            Err(error) => Err(error),
        }
    } else {
        match read_aliases(member.value) {
            Ok(aliases) => Ok(Settings { aliases, ..before }),
            Err(error) => Err(error),
        }
    }
}

/// The settings of a list: first `forward-cfgs`, then `test-attribute-aliases`.
pub open spec fn read_list(items: Seq<Json>) -> Result<Settings, ConfigError> {
    if items.len() == 0 {
        Ok(no_settings())
    } else {
        match read_cfgs(items[0]) {
            Err(error) => Err(error),
            Ok(forward_cfgs) => if items.len() == 1 {
                Ok(Settings { forward_cfgs, aliases: Seq::empty() })
            } else {
                match read_aliases(items[1]) {
                    Err(error) => Err(error),
                    Ok(aliases) => if items.len() == 2 {
                        Ok(Settings { forward_cfgs, aliases })
                    } else {
                        Err(ConfigError::TooLong)
                    },
                }
            },
        }
    }
}

/// The settings that a value holds.
pub open spec fn read_settings(value: Json) -> Result<Settings, ConfigError> {
    match value {
        Json::Object(members) => read_table(members@),
        Json::List(items) => read_list(items@),
        _ => Err(ConfigError::NotATable),
    }
}

/// The index of the first member with the key, or the number of members.
pub open spec fn key_index(members: Seq<Member>, key: Seq<char>) -> int
    decreases members.len(),
{
    if members.len() == 0 || members[0].key@ == key {
        0
    } else {
        1 + key_index(members.skip(1), key)
    }
}

/// The settings in the `dinghy` table of the workspace metadata; without it there are none.
pub open spec fn workspace_settings(metadata: Json) -> Result<Settings, ConfigError> {
    match metadata {
        Json::Object(members) => {
            let at = key_index(members@, "dinghy"@);
            if at < members@.len() {
                read_settings(members@[at].value)
            } else {
                Ok(no_settings())
            }
        },
        _ => Ok(no_settings()),
    }
}

/// Puts a pair at its place; one with the same key goes.
fn insert_pair(pairs: &mut Vec<(String, String)>, key: String, value: String)
    ensures
        pair_texts(final(pairs)@) == with_pair(pair_texts(old(pairs)@), key@, value@),
{
    let ghost all = pair_texts(pairs@);
    let ghost wanted = with_pair(all, key@, value@);
    let mut i: usize = 0;
    assert(all.skip(0) =~= all);
    assert(all.take(0) + wanted =~= wanted);
    while i < pairs.len()
        invariant
            i <= pairs@.len(),
            all == pair_texts(pairs@),
            pairs@ == old(pairs)@,
            all == pair_texts(old(pairs)@),
            wanted == with_pair(all, key@, value@),
            wanted == all.take(i as int) + with_pair(all.skip(i as int), key@, value@),
        decreases pairs@.len() - i,
    {
        assert(all[i as int].0 == pairs@[i as int].0@);
        assert(all.skip(i as int)[0] == all[i as int]);
        let ghost rest = all.skip(i as int).skip(1);
        assert(rest =~= all.skip(i + 1));
        if pairs[i].0 == key {
            pairs.set(i, (key, value));
            assert(pair_texts(pairs@) =~= all.take(i as int) + (seq![(key@, value@)] + rest));
            return;
        }
        if comes_before(key.as_str(), pairs[i].0.as_str()) {
            pairs.insert(i, (key, value));
            assert(pair_texts(pairs@) =~= all.take(i as int) + (seq![(key@, value@)] + all.skip(
                i as int,
            )));
            return;
        }
        assert(all.take(i as int) + (seq![all[i as int]] + with_pair(rest, key@, value@))
            =~= all.take(i + 1) + with_pair(rest, key@, value@));
        i += 1;
    }
    assert(all.skip(i as int) =~= Seq::empty());
    pairs.push((key, value));
    assert(pair_texts(pairs@) =~= all.take(i as int) + seq![(key@, value@)]);
}

fn parse_cfgs(value: &Json) -> (result: Result<Vec<String>, ConfigError>)
    ensures
        match result {
            Ok(list) => read_cfgs(*value) == Ok::<_, ConfigError>(texts(list@)),
            Err(error) => read_cfgs(*value) == Err::<Seq<Seq<char>>, _>(error),
        },
{
    match value {
        Json::List(items) => {
            let mut list: Vec<String> = Vec::new();
            let mut i: usize = 0;
            assert(texts(list@) =~= Seq::empty());
            assert(items@.take(0) =~= Seq::empty());
            while i < items.len()
                invariant
                    i <= items@.len(),
                    *value == Json::List(*items),
                    all_texts(items@.take(i as int)) == Some(texts(list@)),
                decreases items@.len() - i,
            {
                assert(items@.take(i + 1).drop_last() =~= items@.take(i as int));
                match &items[i] {
                    Json::Text(text) => {
                        push_text(&mut list, text.clone());
                    },
                    _ => {
                        proof {
                            lemma_texts_prefix(items@, i + 1);
                        }
                        return Err(ConfigError::ForwardCfgs);
                    },
                }
                i += 1;
            }
            assert(items@.take(i as int) =~= items@);
            Ok(list)
        },
        _ => Err(ConfigError::ForwardCfgs),
    }
}

fn parse_aliases(value: &Json) -> (result: Result<Vec<(String, String)>, ConfigError>)
    ensures
        match result {
            Ok(pairs) => read_aliases(*value) == Ok::<_, ConfigError>(pair_texts(pairs@)),
            Err(error) => read_aliases(*value) == Err::<Seq<(Seq<char>, Seq<char>)>, _>(error),
        },
{
    match value {
        Json::Object(members) => {
            let mut pairs: Vec<(String, String)> = Vec::new();
            let mut i: usize = 0;
            assert(pair_texts(pairs@) =~= Seq::empty());
            assert(members@.take(0) =~= Seq::empty());
            while i < members.len()
                invariant
                    i <= members@.len(),
                    *value == Json::Object(*members),
                    all_pairs(members@.take(i as int)) == Some(pair_texts(pairs@)),
                decreases members@.len() - i,
            {
                assert(members@.take(i + 1).drop_last() =~= members@.take(i as int));
                match &members[i].value {
                    Json::Text(text) => {
                        insert_pair(&mut pairs, members[i].key.clone(), text.clone());
                    },
                    _ => {
                        proof {
                            lemma_pairs_prefix(members@, i + 1);
                        }
                        return Err(ConfigError::TestAttributeAliases);
                    },
                }
                i += 1;
            }
            assert(members@.take(i as int) =~= members@);
            Ok(pairs)
        },
        _ => Err(ConfigError::TestAttributeAliases),
    }
}

fn key_stands_before(members: &Vec<Member>, end: usize, key: &str) -> (found: bool)
    requires
        end <= members@.len(),
    ensures
        found == has_key(members@.take(end as int), key@),
{
    let mut i: usize = 0;
    let ghost earlier = members@.take(end as int);
    while i < end
        invariant
            i <= end <= members@.len(),
            earlier == members@.take(end as int),
            forall|k: int| 0 <= k < i ==> (#[trigger] earlier[k]).key@ != key@,
        decreases end - i,
    {
        assert(earlier[i as int] == members@[i as int]);
        if same_text(members[i].key.as_str(), key) {
            return true;
        }
        i += 1;
    }
    false
}

fn parse_table(members: &Vec<Member>) -> (result: Result<DinghyWorkspaceConfig, ConfigError>)
    ensures
        match result {
            Ok(config) => read_table(members@) == Ok::<_, ConfigError>(config@),
            Err(error) => read_table(members@) == Err::<Settings, _>(error),
        },
{
    let mut config = DinghyWorkspaceConfig::default();
    let mut i: usize = 0;
    assert(members@.take(0) =~= Seq::empty());
    while i < members.len()
        invariant
            i <= members@.len(),
            read_table(members@.take(i as int)) == Ok::<_, ConfigError>(config@),
        decreases members@.len() - i,
    {
        let key = members[i].key.as_str();
        let ghost earlier = members@.take(i as int);
        let ghost before = config@;
        assert(members@.take(i + 1).drop_last() =~= earlier);
        assert(members@.take(i + 1).last() == members@[i as int]);
        let cfgs: bool = same_text(key, "forward-cfgs");
        let mut wrong: Option<ConfigError> = None;
        if !cfgs && !same_text(key, "test-attribute-aliases") {
            wrong = Some(ConfigError::UnknownField);
        } else if key_stands_before(members, i, key) {
            wrong = Some(ConfigError::DuplicateField);
        } else if cfgs {
            match parse_cfgs(&members[i].value) {
                Ok(list) => {
                    config.forward_cfgs = list;
                },
                Err(error) => {
                    wrong = Some(error);
                },
            }
        } else {
            match parse_aliases(&members[i].value) {
                Ok(pairs) => {
                    config.test_attribute_aliases = pairs;
                },
                Err(error) => {
                    wrong = Some(error);
                },
            }
        }
        if let Some(error) = wrong {
            proof {
                lemma_table_prefix(members@, i + 1);
            }
            return Err(error);
        }
        i += 1;
    }
    assert(members@.take(i as int) =~= members@);
    Ok(config)
}

fn parse_list(items: &Vec<Json>) -> (result: Result<DinghyWorkspaceConfig, ConfigError>)
    ensures
        match result {
            Ok(config) => read_list(items@) == Ok::<_, ConfigError>(config@),
            Err(error) => read_list(items@) == Err::<Settings, _>(error),
        },
{
    let mut config = DinghyWorkspaceConfig::default();
    if items.len() > 0 {
        match parse_cfgs(&items[0]) {
            Ok(list) => {
                config.forward_cfgs = list;
            },
            Err(error) => {
                return Err(error);
            },
        }
    }
    if items.len() > 1 {
        match parse_aliases(&items[1]) {
            Ok(pairs) => {
                config.test_attribute_aliases = pairs;
            },
            Err(error) => {
                return Err(error);
            },
        }
    }
    if items.len() > 2 {
        return Err(ConfigError::TooLong);
    }
    Ok(config)
}

impl Default for DinghyWorkspaceConfig {
    fn default() -> (config: Self)
        ensures
            config@ == no_settings(),
    {
        let config = DinghyWorkspaceConfig {
            forward_cfgs: Vec::new(),
            test_attribute_aliases: Vec::new(),
        };
        assert(config@.forward_cfgs =~= Seq::empty());
        assert(config@.aliases =~= Seq::empty());
        config
    }
}

impl DinghyWorkspaceConfig {
    /// Whether the aliases are in order.
    pub open spec fn valid(self) -> bool {
        keys_ascend(self@.aliases)
    }

    /// Reads the settings in the `dinghy` table of the workspace metadata. Without that table
    /// there are no settings.
    pub fn from_workspace_metadata(value: &Json) -> (result: Result<Self, ConfigError>)
        ensures
            match result {
                Ok(config) => workspace_settings(*value) == Ok::<_, ConfigError>(config@)
                    && config.valid(),
                Err(error) => workspace_settings(*value) == Err::<Settings, _>(error),
            },
    {
        let result = match value {
            Json::Object(members) => {
                let mut i: usize = 0;
                assert(members@.skip(0) =~= members@);
                while i < members.len() && !same_text(members[i].key.as_str(), "dinghy")
                    invariant
                        i <= members@.len(),
                        key_index(members@, "dinghy"@) == i + key_index(
                            members@.skip(i as int),
                            "dinghy"@,
                        ),
                    decreases members@.len() - i,
                {
                    assert(members@.skip(i as int)[0] == members@[i as int]);
                    assert(members@.skip(i as int).skip(1) =~= members@.skip(i + 1));
                    i += 1;
                }
                if i == members.len() {
                    Ok(DinghyWorkspaceConfig::default())
                } else {
                    assert(members@.skip(i as int)[0] == members@[i as int]);
                    match &members[i].value {
                        Json::Object(table) => parse_table(table),
                        Json::List(items) => parse_list(items),
                        _ => Err(ConfigError::NotATable),
                    }
                }
            },
            _ => Ok(DinghyWorkspaceConfig::default()),
        };
        proof {
            workspace_aliases_ascend(*value);
        }
        result
    }
}

impl ConfigError {
    /// What the user is told.
    pub fn message(&self) -> (text: String)
        ensures
            text@
                == "Failed to parse [workspace.metadata.dinghy]. Known fields: `forward-cfgs`, `test-attribute-aliases`."@,
    {
        "Failed to parse [workspace.metadata.dinghy]. Known fields: `forward-cfgs`, `test-attribute-aliases`.".to_string()
    }
}

proof fn lemma_texts_prefix(items: Seq<Json>, count: int)
    requires
        0 <= count <= items.len(),
        all_texts(items.take(count)) is None,
    ensures
        all_texts(items) is None,
    decreases items.len() - count,
{
    if count < items.len() {
        assert(items.take(count + 1).drop_last() =~= items.take(count));
        lemma_texts_prefix(items, count + 1);
    } else {
        assert(items.take(count) =~= items);
    }
}

proof fn lemma_pairs_prefix(members: Seq<Member>, count: int)
    requires
        0 <= count <= members.len(),
        all_pairs(members.take(count)) is None,
    ensures
        all_pairs(members) is None,
    decreases members.len() - count,
{
    if count < members.len() {
        assert(members.take(count + 1).drop_last() =~= members.take(count));
        lemma_pairs_prefix(members, count + 1);
    } else {
        assert(members.take(count) =~= members);
    }
}

proof fn lemma_table_prefix(members: Seq<Member>, count: int)
    requires
        0 <= count <= members.len(),
        read_table(members.take(count)) is Err,
    ensures
        read_table(members) == read_table(members.take(count)),
    decreases members.len() - count,
{
    if count < members.len() {
        assert(members.take(count + 1).drop_last() =~= members.take(count));
        lemma_table_prefix(members, count + 1);
    } else {
        assert(members.take(count) =~= members);
    }
}

proof fn lemma_with_pair(pairs: Seq<(Seq<char>, Seq<char>)>, key: Seq<char>, value: Seq<char>)
    requires
        keys_ascend(pairs),
    ensures
        keys_ascend(with_pair(pairs, key, value)),
        forall|i: int|
            0 <= i < with_pair(pairs, key, value).len() ==> (#[trigger] with_pair(
                pairs,
                key,
                value,
            )[i]).0 == key || exists|j: int|
                0 <= j < pairs.len() && #[trigger] pairs[j].0 == with_pair(pairs, key, value)[i].0,
    decreases pairs.len(),
{
    let result = with_pair(pairs, key, value);
    let old_keys = pairs.map_values(|pair: (Seq<char>, Seq<char>)| pair.0);
    let new_keys = result.map_values(|pair: (Seq<char>, Seq<char>)| pair.0);
    assert forall|i: int| 0 <= i < pairs.len() implies old_keys[i] == #[trigger] pairs[i].0 by {}
    assert forall|i: int| 0 <= i < result.len() implies new_keys[i] == #[trigger] result[i].0 by {}
    if pairs.len() == 0 {
    } else if pairs[0].0 == key {
        assert forall|i: int| 0 <= i < result.len() implies #[trigger] new_keys[i] == old_keys[i] by {
            assert(new_keys[i] == result[i].0);
            assert(old_keys[i] == pairs[i].0);
        }
        assert(new_keys =~= old_keys);
        assert forall|i: int| 0 <= i < result.len() implies result[i].0 == key || exists|j: int|
            0 <= j < pairs.len() && #[trigger] pairs[j].0 == result[i].0 by {
            assert(pairs[i].0 == result[i].0);
        }
    } else if precedes(key, pairs[0].0) {
        assert forall|i: int| 1 <= i < result.len() implies #[trigger] result[i] == pairs[i - 1] by {}
        assert forall|i: int, j: int| 0 <= i < j < new_keys.len() implies precedes(
            #[trigger] new_keys[i],
            #[trigger] new_keys[j],
        ) by {
            assert(new_keys[j] == old_keys[j - 1]);
            if i == 0 {
                if j > 1 {
                    assert(precedes(old_keys[0], old_keys[j - 1]));
                    precedes_is_transitive(key, pairs[0].0, old_keys[j - 1]);
                }
            } else {
                assert(new_keys[i] == old_keys[i - 1]);
            }
        }
        assert forall|i: int| 0 <= i < result.len() implies result[i].0 == key || exists|j: int|
            0 <= j < pairs.len() && #[trigger] pairs[j].0 == result[i].0 by {
            if i > 0 {
                assert(pairs[i - 1].0 == result[i].0);
            }
        }
    } else {
        precedes_is_total(key, pairs[0].0);
        let rest = pairs.skip(1);
        let rest_keys = rest.map_values(|pair: (Seq<char>, Seq<char>)| pair.0);
        assert forall|i: int| 0 <= i < rest.len() implies rest_keys[i] == old_keys[i + 1] by {}
        assert forall|i: int, j: int| 0 <= i < j < rest_keys.len() implies precedes(
            #[trigger] rest_keys[i],
            #[trigger] rest_keys[j],
        ) by {
            assert(precedes(old_keys[i + 1], old_keys[j + 1]));
        }
        lemma_with_pair(rest, key, value);
        let tail = with_pair(rest, key, value);
        let tail_keys = tail.map_values(|pair: (Seq<char>, Seq<char>)| pair.0);
        assert forall|i: int| 1 <= i < result.len() implies #[trigger] result[i] == tail[i - 1] by {}
        assert forall|i: int, j: int| 0 <= i < j < new_keys.len() implies precedes(
            #[trigger] new_keys[i],
            #[trigger] new_keys[j],
        ) by {
            assert(new_keys[j] == tail[j - 1].0);
            assert(tail_keys[j - 1] == tail[j - 1].0);
            if i == 0 {
                if tail[j - 1].0 != key {
                    let k = choose|k: int|
                        0 <= k < rest.len() && #[trigger] rest[k].0 == tail[j - 1].0;
                    assert(old_keys[k + 1] == rest[k].0);
                    assert(precedes(old_keys[0], old_keys[k + 1]));
                }
            } else {
                assert(new_keys[i] == tail_keys[i - 1]);
            }
        }
        assert forall|i: int| 0 <= i < result.len() implies result[i].0 == key || exists|j: int|
            0 <= j < pairs.len() && #[trigger] pairs[j].0 == result[i].0 by {
            if i == 0 {
                assert(pairs[0].0 == result[i].0);
            } else if tail[i - 1].0 != key {
                let k = choose|k: int|
                    0 <= k < rest.len() && #[trigger] rest[k].0 == tail[i - 1].0;
                assert(pairs[k + 1].0 == result[i].0);
            }
        }
    }
}

/// The pairs that are read from a table ascend.
pub proof fn pairs_ascend(members: Seq<Member>)
    ensures
        match all_pairs(members) {
            Some(pairs) => keys_ascend(pairs),
            None => true,
        },
    decreases members.len(),
{
    if members.len() > 0 {
        pairs_ascend(members.drop_last());
        if let (Some(before), Json::Text(text)) = (
            all_pairs(members.drop_last()),
            members.last().value,
        ) {
            lemma_with_pair(before, members.last().key@, text@);
        }
    }
}

proof fn lemma_read_aliases(value: Json)
    ensures
        match read_aliases(value) {
            Ok(pairs) => keys_ascend(pairs),
            Err(_) => true,
        },
{
    if let Json::Object(members) = value {
        pairs_ascend(members@);
    }
}

proof fn lemma_read_table(members: Seq<Member>)
    ensures
        match read_table(members) {
            Ok(settings) => keys_ascend(settings.aliases),
            Err(_) => true,
        },
    decreases members.len(),
{
    if members.len() > 0 {
        lemma_read_table(members.drop_last());
        lemma_read_aliases(members.last().value);
    }
}

/// A table that is read has no other field than the two settings and none of them twice, and
/// a setting that is not there is empty.
pub proof fn tables_hold_known_fields(members: Seq<Member>)
    ensures
        match read_table(members) {
            Ok(settings) => {
                &&& forall|i: int|
                    0 <= i < members.len() ==> (#[trigger] members[i]).key@ == "forward-cfgs"@
                        || members[i].key@ == "test-attribute-aliases"@
                &&& forall|i: int, j: int|
                    0 <= i < j < members.len() ==> (#[trigger] members[i]).key@ != (
                    #[trigger] members[j]).key@
                &&& !has_key(members, "forward-cfgs"@) ==> settings.forward_cfgs.len() == 0
                &&& !has_key(members, "test-attribute-aliases"@) ==> settings.aliases.len() == 0
            },
            Err(_) => true,
        },
    decreases members.len(),
{
    if members.len() > 0 {
        let earlier = members.drop_last();
        tables_hold_known_fields(earlier);
        assert(members[members.len() - 1] == members.last());
        assert forall|key: Seq<char>| has_key(earlier, key) implies has_key(members, key) by {
            let i = choose|i: int| 0 <= i < earlier.len() && (#[trigger] earlier[i]).key@ == key;
            assert(members[i] == earlier[i]);
        }
        assert(has_key(members, members.last().key@));
        assert forall|i: int| 0 <= i < earlier.len() implies (#[trigger] members[i]).key@
            == "forward-cfgs"@ || members[i].key@ == "test-attribute-aliases"@ || read_table(
            members,
        ) is Err by {
            assert(members[i] == earlier[i]);
        }
        if read_table(members) is Ok {
            assert forall|i: int, j: int| 0 <= i < j < members.len() implies (
            #[trigger] members[i]).key@ != (#[trigger] members[j]).key@ by {
                assert(members[i] == earlier[i]);
                if j < earlier.len() {
                    assert(members[j] == earlier[j]);
                }
            }
        }
    }
}

/// Whatever the metadata holds, the aliases that are read from it ascend.
pub proof fn workspace_aliases_ascend(metadata: Json)
    ensures
        match workspace_settings(metadata) {
            Ok(settings) => keys_ascend(settings.aliases),
            Err(_) => true,
        },
{
    if let Json::Object(members) = metadata {
        let at = key_index(members@, "dinghy"@);
        if at < members@.len() {
            match members@[at].value {
                Json::Object(table) => {
                    lemma_read_table(table@);
                },
                Json::List(items) => {
                    lemma_read_aliases(items@[1]);
                },
                _ => {},
            }
        }
    }
}

} // verus!
