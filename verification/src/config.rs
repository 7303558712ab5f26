//! Global configuration for OpenBar Notifier, read from the process environment.
//!
//! The environment is handed in as the list of its (name, value) pairs.

use vstd::prelude::*;
use crate::text::{chars_of, lemma_split_on_nonempty, same_text, split_on, trim, trimmed};

verus! {

/// Global configuration for OpenBar Notifier
#[derive(Debug, Clone, Default)]
pub struct GlobalConfig {
    /// OpenBar connection configuration
    pub openbar: OpenBarConfig,
    /// Notification configuration
    pub notify: NotifyConfig,
    /// Notification targets (list of webhook URLs)
    pub targets: Vec<String>,
    /// Persistent store file path
    pub store_file: String,
}

/// OpenBar connection configuration
#[derive(Debug, Clone, Default)]
pub struct OpenBarConfig {
    /// OpenBar instance URL
    pub instance_url: String,
    /// Card ID for login
    pub card_id: String,
    /// PIN for the card
    pub pin: String,
}

/// Notification configuration
#[derive(Debug, Clone, Copy, Default)]
pub struct NotifyConfig {
    /// Notify when a new item is added
    pub item_added: bool,
    /// Notify when an item becomes buyable
    pub become_buyable: bool,
    /// Notify when an item becomes unbuyable
    pub become_unbuyable: bool,
    /// Notify when an item is out of stock
    pub on_out_of_stock: bool,
}

#[derive(Debug, Clone, Copy, PartialEq, Eq, Structural)]
pub enum GlobalConfigLoadError {
    MissingOpenBarInstanceUrl,
    MissingCardId,
    MissingPin,
}

/// The lowercase form of a string, as `str::to_lowercase` gives it.
pub uninterp spec fn lowercase(s: Seq<char>) -> Seq<char>;

/// The lowercase form of `s`, by `str::to_lowercase`. Trusted: the result is taken
/// to be `lowercase(s)`, a function of the characters of `s` alone; the Unicode
/// case mapping itself is not stated here.
#[verifier::external_body]
fn to_lowercase(s: &str) -> (r: String)
    ensures
        r@ == lowercase(s@),
{
    s.to_lowercase()
}

/// The value of the first variable of `vars` named `name`.
pub open spec fn env_value(vars: Seq<(String, String)>, name: Seq<char>) -> Option<Seq<char>>
    decreases vars.len(),
{
    if vars.len() == 0 {
        None
    } else if vars[0].0@ == name {
        Some(vars[0].1@)
    } else {
        env_value(vars.drop_first(), name)
    }
}

/// A notification switch: on exactly when the variable is set to `true`, in any case.
pub open spec fn flag_value(value: Option<Seq<char>>) -> bool {
    match value {
        Some(v) => lowercase(v) == seq!['t', 'r', 'u', 'e'],
        None => false,
    }
}

/// The non-empty pieces of `parts`, in order.
pub open spec fn non_empty(parts: Seq<Seq<char>>) -> Seq<Seq<char>>
    decreases parts.len(),
{
    if parts.len() == 0 {
        parts
    } else if parts.last().len() > 0 {
        non_empty(parts.drop_last()).push(parts.last())
    } else {
        non_empty(parts.drop_last())
    }
}

/// The targets of a comma-separated list: each piece trimmed, the empty ones dropped.
pub open spec fn targets_of(list: Seq<char>) -> Seq<Seq<char>> {
    non_empty(split_on(list, ',').map_values(|p: Seq<char>| trim(p)))
}

/// The texts of a list of strings.
pub open spec fn texts(v: Seq<String>) -> Seq<Seq<char>> {
    v.map_values(|t: String| t@)
}

/// The default path of the store file.
pub open spec fn default_store_path() -> Seq<char> {
    "./item_store.json"@
}

/// The configuration that `vars` describes, or the first variable it lacks.
pub open spec fn config_outcome(vars: Seq<(String, String)>) -> Result<(), GlobalConfigLoadError> {
    if env_value(vars, "OPENBAR_INSTANCE_URL"@) is None {
        Err(GlobalConfigLoadError::MissingOpenBarInstanceUrl)
    } else if env_value(vars, "OPENBAR_CARD_ID"@) is None {
        Err(GlobalConfigLoadError::MissingCardId)
    } else if env_value(vars, "OPENBAR_PIN"@) is None {
        Err(GlobalConfigLoadError::MissingPin)
    } else {
        Ok(())
    }
}

/// `config` holds what `vars` sets.
pub open spec fn config_matches(config: GlobalConfig, vars: Seq<(String, String)>) -> bool {
    &&& config.store_file@ == match env_value(vars, "STORE_PATH"@) {
        Some(p) => p,
        None => default_store_path(),
    }
    &&& Some(config.openbar.instance_url@) == env_value(vars, "OPENBAR_INSTANCE_URL"@)
    &&& Some(config.openbar.card_id@) == env_value(vars, "OPENBAR_CARD_ID"@)
    &&& Some(config.openbar.pin@) == env_value(vars, "OPENBAR_PIN"@)
    &&& config.notify.item_added == flag_value(env_value(vars, "NOTIFY_ITEM_ADDED"@))
    &&& config.notify.become_buyable == flag_value(env_value(vars, "NOTIFY_BECOME_BUYABLE"@))
    &&& config.notify.become_unbuyable == flag_value(env_value(vars, "NOTIFY_BECOME_UNBUYABLE"@))
    &&& config.notify.on_out_of_stock == flag_value(env_value(vars, "NOTIFY_ON_OUT_OF_STOCK"@))
    &&& texts(config.targets@) == targets_of(match env_value(vars, "NOTIFICATION_TARGETS"@) {
        Some(t) => t,
        None => Seq::<char>::empty(),
    })
}

/// The value of the first variable of `vars` named `name`.
fn var(vars: &Vec<(String, String)>, name: &str) -> (r: Option<String>)
    ensures
        match r {
            Some(v) => env_value(vars@, name@) == Some(v@),
            None => env_value(vars@, name@) is None,
        },
{
    let mut i: usize = 0;
    assert(vars@.subrange(0, vars.len() as int) =~= vars@);
    while i < vars.len()
        invariant
            i <= vars.len(),
            env_value(vars@, name@) == env_value(vars@.subrange(i as int, vars.len() as int), name@),
        decreases vars.len() - i,
    {
        let ghost rest = vars@.subrange(i as int, vars.len() as int);
        assert(rest.drop_first() =~= vars@.subrange(i + 1, vars.len() as int));
        assert(rest[0] == vars@[i as int]);
        if same_text(vars[i].0.as_str(), name) {
            return Some(vars[i].1.clone());
        }
        i = i + 1;
    }
    None
}

/// Whether the lowercase form of a switch's value turns the switch on: it is
/// exactly `true`.
pub fn switch_on(lowered: &str) -> (r: bool)
    ensures
        r == (lowered@ == seq!['t', 'r', 'u', 'e']),
{
    proof {
        reveal_strlit("true");
        assert("true"@ =~= seq!['t', 'r', 'u', 'e']);
    }
    same_text(lowered, "true")
}

/// A notification switch read from an optional variable value.
fn flag(value: Option<String>) -> (r: bool)
    ensures
        r == flag_value(match value {
            Some(v) => Some(v@),
            None => None,
        }),
{
    match value {
        Some(v) => {
            let lowered = to_lowercase(v.as_str());
            switch_on(lowered.as_str())
        },
        None => false,
    }
}

/// Unfolds `non_empty` over one more piece.
proof fn lemma_non_empty_push(parts: Seq<Seq<char>>, p: Seq<char>)
    ensures
        non_empty(parts.push(p)) == if p.len() > 0 {
            non_empty(parts).push(p)
        } else {
            non_empty(parts)
        },
{
    assert(parts.push(p).drop_last() =~= parts);
}

/// The targets of a comma-separated list (`split(',')`, `trim`, and the empty
/// ones dropped).
pub fn parse_targets(list: &str) -> (r: Vec<String>)
    ensures
        texts(r@) == targets_of(list@),
{
    let chars = chars_of(list);
    let ghost trim_fn = |p: Seq<char>| trim(p);
    let mut out: Vec<String> = Vec::new();
    let mut start: usize = 0;
    let mut i: usize = 0;
    while i < chars.len()
        invariant
            start <= i <= chars.len(),
            chars@ == list@,
            trim_fn == (|p: Seq<char>| trim(p)),
            split_on(chars@.subrange(0, i as int), ',').len() >= 1,
            split_on(chars@.subrange(0, i as int), ',').last() == chars@.subrange(start as int, i as int),
            texts(out@) == non_empty(split_on(chars@.subrange(0, i as int), ',').drop_last().map_values(trim_fn)),
        decreases chars.len() - i,
    {
        let ghost before = chars@.subrange(0, i as int);
        let ghost pieces = split_on(before, ',');
        let ghost after = chars@.subrange(0, i + 1);
        assert(after.drop_last() =~= before);
        assert(after.last() == chars@[i as int]);
        if chars[i] == ',' {
            let piece = trimmed(&chars, start, i);
            let ghost old_out = texts(out@);
            if !piece.as_str().is_empty() {
                out.push(piece);
                assert(texts(out@) =~= old_out.push(piece@));
            }
            proof {
                let new_pieces = split_on(after, ',');
                assert(new_pieces == pieces.push(Seq::<char>::empty()));
                assert(new_pieces.drop_last() =~= pieces);
                assert(pieces =~= pieces.drop_last().push(pieces.last()));
                assert(pieces.map_values(trim_fn) =~= pieces.drop_last().map_values(trim_fn).push(trim_fn(pieces.last())));
                lemma_non_empty_push(pieces.drop_last().map_values(trim_fn), trim_fn(pieces.last()));
                lemma_split_on_nonempty(after, ',');
                assert(chars@.subrange(i + 1, i + 1) =~= Seq::<char>::empty());
            }
            start = i + 1;
        } else {
            proof {
                let new_pieces = split_on(after, ',');
                assert(new_pieces == pieces.update(pieces.len() - 1, pieces.last().push(chars@[i as int])));
                assert(new_pieces.drop_last() =~= pieces.drop_last());
                assert(chars@.subrange(start as int, i + 1) =~= chars@.subrange(start as int, i as int).push(chars@[i as int]));
                lemma_split_on_nonempty(after, ',');
            }
        }
        i = i + 1;
    }
    let ghost pieces = split_on(chars@, ',');
    assert(chars@.subrange(0, chars@.len() as int) =~= chars@);
    let piece = trimmed(&chars, start, chars.len());
    let ghost old_out = texts(out@);
    if !piece.as_str().is_empty() {
        out.push(piece);
        assert(texts(out@) =~= old_out.push(piece@));
    }
    proof {
        assert(pieces =~= pieces.drop_last().push(pieces.last()));
        assert(pieces.map_values(trim_fn) =~= pieces.drop_last().map_values(trim_fn).push(trim_fn(pieces.last())));
        lemma_non_empty_push(pieces.drop_last().map_values(trim_fn), trim_fn(pieces.last()));
    }
    out
}

/// Every piece that `non_empty` keeps is non-empty.
proof fn lemma_non_empty_all(parts: Seq<Seq<char>>)
    ensures
        forall|i: int| 0 <= i < non_empty(parts).len() ==> #[trigger] non_empty(parts)[i].len() > 0,
    decreases parts.len(),
{
    if parts.len() > 0 {
        lemma_non_empty_all(parts.drop_last());
        let r = non_empty(parts.drop_last());
        if parts.last().len() > 0 {
            assert forall|i: int| 0 <= i < non_empty(parts).len() implies #[trigger] non_empty(parts)[i].len() > 0 by {
                if i < r.len() {
                    assert(non_empty(parts)[i] == r[i]);
                }
            }
        }
    }
}

/// No notification target is empty.
pub proof fn law_targets_non_empty(list: Seq<char>)
    ensures
        forall|i: int| 0 <= i < targets_of(list).len() ==> #[trigger] targets_of(list)[i].len() > 0,
{
    lemma_non_empty_all(split_on(list, ',').map_values(|p: Seq<char>| trim(p)));
}

/// Each setting depends on its own variable only: two loaded configurations
/// whose environments agree on a variable agree on the setting read from it,
/// whatever the other variables hold.
pub proof fn law_settings_read_own_variable(
    c1: GlobalConfig,
    v1: Seq<(String, String)>,
    c2: GlobalConfig,
    v2: Seq<(String, String)>,
)
    requires
        config_matches(c1, v1),
        config_matches(c2, v2),
    ensures
        env_value(v1, "STORE_PATH"@) == env_value(v2, "STORE_PATH"@) ==> c1.store_file@ == c2.store_file@,
        env_value(v1, "OPENBAR_INSTANCE_URL"@) == env_value(v2, "OPENBAR_INSTANCE_URL"@) ==> c1.openbar.instance_url@ == c2.openbar.instance_url@,
        env_value(v1, "OPENBAR_CARD_ID"@) == env_value(v2, "OPENBAR_CARD_ID"@) ==> c1.openbar.card_id@ == c2.openbar.card_id@,
        env_value(v1, "OPENBAR_PIN"@) == env_value(v2, "OPENBAR_PIN"@) ==> c1.openbar.pin@ == c2.openbar.pin@,
        env_value(v1, "NOTIFY_ITEM_ADDED"@) == env_value(v2, "NOTIFY_ITEM_ADDED"@) ==> c1.notify.item_added == c2.notify.item_added,
        env_value(v1, "NOTIFY_BECOME_BUYABLE"@) == env_value(v2, "NOTIFY_BECOME_BUYABLE"@) ==> c1.notify.become_buyable == c2.notify.become_buyable,
        env_value(v1, "NOTIFY_BECOME_UNBUYABLE"@) == env_value(v2, "NOTIFY_BECOME_UNBUYABLE"@) ==> c1.notify.become_unbuyable == c2.notify.become_unbuyable,
        env_value(v1, "NOTIFY_ON_OUT_OF_STOCK"@) == env_value(v2, "NOTIFY_ON_OUT_OF_STOCK"@) ==> c1.notify.on_out_of_stock == c2.notify.on_out_of_stock,
        env_value(v1, "NOTIFICATION_TARGETS"@) == env_value(v2, "NOTIFICATION_TARGETS"@) ==> texts(c1.targets@) == texts(c2.targets@),
{
}

/// What each variable sets: the required values are the variables' values, the
/// store path is its variable's value or `./item_store.json`, and a switch is
/// off when its variable is unset and on when the variable's lowercase form is
/// `true`.
pub proof fn law_settings_values(c: GlobalConfig, vars: Seq<(String, String)>)
    requires
        config_matches(c, vars),
    ensures
        env_value(vars, "OPENBAR_INSTANCE_URL"@) == Some(c.openbar.instance_url@),
        env_value(vars, "OPENBAR_CARD_ID"@) == Some(c.openbar.card_id@),
        env_value(vars, "OPENBAR_PIN"@) == Some(c.openbar.pin@),
        env_value(vars, "STORE_PATH"@) is None ==> c.store_file@ == "./item_store.json"@,
        env_value(vars, "STORE_PATH"@) matches Some(p) ==> c.store_file@ == p,
        env_value(vars, "NOTIFY_ITEM_ADDED"@) is None ==> !c.notify.item_added,
        env_value(vars, "NOTIFY_BECOME_BUYABLE"@) is None ==> !c.notify.become_buyable,
        env_value(vars, "NOTIFY_BECOME_UNBUYABLE"@) is None ==> !c.notify.become_unbuyable,
        env_value(vars, "NOTIFY_ON_OUT_OF_STOCK"@) is None ==> !c.notify.on_out_of_stock,
        env_value(vars, "NOTIFY_ITEM_ADDED"@) matches Some(v) ==> (c.notify.item_added <==> lowercase(v) == "true"@),
        env_value(vars, "NOTIFY_BECOME_BUYABLE"@) matches Some(v) ==> (c.notify.become_buyable <==> lowercase(v) == "true"@),
        env_value(vars, "NOTIFY_BECOME_UNBUYABLE"@) matches Some(v) ==> (c.notify.become_unbuyable <==> lowercase(v) == "true"@),
        env_value(vars, "NOTIFY_ON_OUT_OF_STOCK"@) matches Some(v) ==> (c.notify.on_out_of_stock <==> lowercase(v) == "true"@),
{
    reveal_strlit("true");
    assert("true"@ =~= seq!['t', 'r', 'u', 'e']);
}

/// The configuration loads exactly when the three required variables are set,
/// and the error names the first of them, in the order URL, card, PIN, that is
/// missing.
pub proof fn law_required_variables(vars: Seq<(String, String)>)
    ensures
        config_outcome(vars) is Ok <==> (env_value(vars, "OPENBAR_INSTANCE_URL"@) is Some && env_value(vars, "OPENBAR_CARD_ID"@) is Some && env_value(vars, "OPENBAR_PIN"@) is Some),
        env_value(vars, "OPENBAR_INSTANCE_URL"@) is None ==> config_outcome(vars) == Err::<(), GlobalConfigLoadError>(GlobalConfigLoadError::MissingOpenBarInstanceUrl),
        env_value(vars, "OPENBAR_INSTANCE_URL"@) is Some && env_value(vars, "OPENBAR_CARD_ID"@) is None ==> config_outcome(vars) == Err::<(), GlobalConfigLoadError>(GlobalConfigLoadError::MissingCardId),
        env_value(vars, "OPENBAR_INSTANCE_URL"@) is Some && env_value(vars, "OPENBAR_CARD_ID"@) is Some && env_value(vars, "OPENBAR_PIN"@) is None ==> config_outcome(vars) == Err::<(), GlobalConfigLoadError>(GlobalConfigLoadError::MissingPin),
{
}

impl GlobalConfig {
    /// Load configuration from the environment variables `vars`
    ///
    /// Environment Variables:
    /// - STORE_PATH (optional): Path to the persistent store file (default: "./item_store.json")
    /// - OPENBAR_INSTANCE_URL (required): URL of the OpenBar instance
    /// - OPENBAR_CARD_ID (required): Card ID for login
    /// - OPENBAR_PIN (required): PIN for the card
    /// - NOTIFY_ITEM_ADDED (default: false): Notify when a new item is added
    /// - NOTIFY_BECOME_BUYABLE (default: false): Notify when an item becomes buyable
    /// - NOTIFY_BECOME_UNBUYABLE (default: false): Notify when an item becomes unbuyable
    /// - NOTIFY_ON_OUT_OF_STOCK (default: false): Notify when an item is out of stock
    /// - NOTIFICATION_TARGETS: Comma-separated list of notification target URLs
    pub fn load_vars(vars: &Vec<(String, String)>) -> (r: Result<Self, GlobalConfigLoadError>)
        ensures
            match r {
                Ok(config) => config_outcome(vars@) is Ok && config_matches(config, vars@),
                Err(e) => config_outcome(vars@) == Err::<(), GlobalConfigLoadError>(e),
            },
    {
        let store_file = match var(vars, "STORE_PATH") {
            Some(p) => p,
            None => "./item_store.json".to_owned(),
        };
        let instance_url = match var(vars, "OPENBAR_INSTANCE_URL") {
            Some(v) => v,
            None => return Err(GlobalConfigLoadError::MissingOpenBarInstanceUrl),
        };
        let card_id = match var(vars, "OPENBAR_CARD_ID") {
            Some(v) => v,
            None => return Err(GlobalConfigLoadError::MissingCardId),
        };
        let pin = match var(vars, "OPENBAR_PIN") {
            Some(v) => v,
            None => return Err(GlobalConfigLoadError::MissingPin),
        };

        let item_added = flag(var(vars, "NOTIFY_ITEM_ADDED"));
        let become_buyable = flag(var(vars, "NOTIFY_BECOME_BUYABLE"));
        let become_unbuyable = flag(var(vars, "NOTIFY_BECOME_UNBUYABLE"));
        let on_out_of_stock = flag(var(vars, "NOTIFY_ON_OUT_OF_STOCK"));

        let targets = match var(vars, "NOTIFICATION_TARGETS") {
            Some(list) => parse_targets(list.as_str()),
            None => parse_targets(""),
        };
        proof {
            reveal_strlit("");
        }

        Ok(GlobalConfig {
            store_file,
            openbar: OpenBarConfig { instance_url, card_id, pin },
            notify: NotifyConfig { item_added, become_buyable, become_unbuyable, on_out_of_stock },
            targets,
        })
    }
}

} // verus!
