//! What the bot remembers: each server's starboard settings, which messages
//! already reached the starboard, and the avatar emojis it uploaded.
use std::collections::{HashMap, HashSet};

use vstd::prelude::*;
use vstd::std_specs::iter::IteratorSpec;

use crate::emoji::{normalize, normalize_spec};
use crate::text::{dec, push_dec, same_text, texts};

verus! {

broadcast use {vstd::std_specs::hash::group_hash_axioms, vstd::set::group_set_axioms, vstd::map::group_map_axioms};

/// The reaction threshold of a server that has not set one.
pub const DEFAULT_MIN_STARS: u64 = 3;

/// A set with the same elements.
fn clone_set(s: &HashSet<u64>) -> (r: HashSet<u64>)
    ensures
        r@ == s@,
{
    let ghost items = IteratorSpec::remaining(&vstd::std_specs::hash::spec_hash_keys_iter(s)).unref();
    let mut out: HashSet<u64> = HashSet::new();
    for x in it: s.iter()
        invariant
            it.seq().unref() == items,
            out@ == items.take(it.index()).to_set(),
    {
        let ghost i = it.index();
        out.insert(*x);
        assert(out@ =~= items.take(i + 1).to_set()) by {
            assert(items.take(i + 1) =~= items.take(i).push(items[i]));
            assert forall|v: u64| items.take(i + 1).contains(v) <==> (items.take(i).contains(v) || v == items[i]) by {
                if items.take(i + 1).contains(v) {
                    let n = choose|n: int| 0 <= n < i + 1 && #[trigger] items.take(i + 1)[n] == v;
                    if n < i {
                        assert(items.take(i)[n] == v);
                    }
                }
                if items.take(i).contains(v) {
                    let n = choose|n: int| 0 <= n < i && #[trigger] items.take(i)[n] == v;
                    assert(items.take(i + 1)[n] == v);
                }
                if v == items[i] {
                    assert(items.take(i + 1)[i] == v);
                }
            }
        }
    }
    assert(items.take(items.len() as int) =~= items);
    out
}

/// Every key of the map once, in the map's own (unspecified) order.
fn keys_of<V>(m: &HashMap<u64, V>) -> (r: Vec<u64>)
    ensures
        r@.to_set() == m@.dom(),
        r@.no_duplicates(),
{
    let ghost keys = IteratorSpec::remaining(&vstd::std_specs::hash::spec_keys_iter(m)).unref();
    let mut out: Vec<u64> = Vec::new();
    for k in it: m.keys()
        invariant
            it.seq().unref() == keys,
            out@ == keys.take(it.index()),
    {
        out.push(*k);
        assert(out@ =~= keys.take(it.index() + 1));
    }
    assert(out@ =~= keys);
    out
}

/// One server's starboard settings.
#[derive(Debug)]
pub struct GuildConfig {
    pub starboard_channel: Option<u64>,
    pub min_stars: u64,
    pub starboard_emojis: Vec<String>,
    /// The single emoji of older configs, folded into `starboard_emojis` on load.
    pub starboard_emoji: Option<String>,
    pub starred_messages: HashSet<u64>,
    pub starboard_msg_ids: HashMap<u64, u64>,
}

/// A server's settings with text taken as character sequences.
#[verifier::ext_equal]
pub struct GuildView {
    pub starboard_channel: Option<u64>,
    pub min_stars: u64,
    pub starboard_emojis: Seq<Seq<char>>,
    pub legacy_emoji: Option<Seq<char>>,
    pub starred_messages: Set<u64>,
    pub starboard_msg_ids: Map<u64, u64>,
}

impl View for GuildConfig {
    type V = GuildView;

    open spec fn view(&self) -> GuildView {
        GuildView {
            starboard_channel: self.starboard_channel,
            min_stars: self.min_stars,
            starboard_emojis: texts(self.starboard_emojis@),
            legacy_emoji: match self.starboard_emoji {
                Some(s) => Some(s@),
                None => None,
            },
            starred_messages: self.starred_messages@,
            starboard_msg_ids: self.starboard_msg_ids@,
        }
    }
}

/// The star emoji every server starts with.
pub open spec fn default_emojis_spec() -> Seq<Seq<char>> {
    seq!["⭐"@]
}

/// The settings of a server that has configured nothing.
pub open spec fn default_guild() -> GuildView {
    GuildView {
        starboard_channel: None,
        min_stars: DEFAULT_MIN_STARS,
        starboard_emojis: default_emojis_spec(),
        legacy_emoji: None,
        starred_messages: Set::empty(),
        starboard_msg_ids: Map::empty(),
    }
}

/// The settings after the legacy single emoji is folded into the list: an
/// empty list takes the normalized legacy emoji (or the legacy text as it is
/// when it does not normalize), else the default star.
pub open spec fn migrated(g: GuildView) -> GuildView {
    if g.starboard_emojis.len() > 0 {
        g
    } else {
        GuildView {
            starboard_emojis: match g.legacy_emoji {
                Some(legacy) => seq![
                    match normalize_spec(legacy) {
                        Some(n) => n,
                        None => legacy,
                    },
                ],
                None => default_emojis_spec(),
            },
            legacy_emoji: None,
            ..g
        }
    }
}

fn default_emojis() -> (r: Vec<String>)
    ensures
        texts(r@) == default_emojis_spec(),
{
    let mut r: Vec<String> = Vec::new();
    r.push(String::from_str("⭐"));
    assert(texts(r@) =~= default_emojis_spec());
    r
}

fn copy_strings(v: &Vec<String>) -> (r: Vec<String>)
    ensures
        texts(r@) == texts(v@),
{
    let mut r: Vec<String> = Vec::new();
    let mut i: usize = 0;
    while i < v.len()
        invariant
            i <= v@.len(),
            r@.len() == i,
            forall|j: int| 0 <= j < i ==> (#[trigger] r@[j])@ == v@[j]@,
        decreases v.len() - i,
    {
        r.push(v[i].clone());
        i = i + 1;
    }
    assert(texts(r@) =~= texts(v@));
    r
}

impl Default for GuildConfig {
    fn default() -> (r: Self)
        ensures
            r@ == default_guild(),
    {
        let r = GuildConfig {
            starboard_channel: None,
            min_stars: DEFAULT_MIN_STARS,
            starboard_emojis: default_emojis(),
            starboard_emoji: None,
            starred_messages: HashSet::new(),
            starboard_msg_ids: HashMap::new(),
        };
        assert(r@ =~= default_guild());
        r
    }
}

impl GuildConfig {
    /// A copy with the same settings.
    pub fn copy(&self) -> (r: Self)
        ensures
            r@ == self@,
    {
        let legacy = match &self.starboard_emoji {
            Some(s) => Some(s.clone()),
            None => None,
        };
        let r = GuildConfig {
            starboard_channel: self.starboard_channel,
            min_stars: self.min_stars,
            starboard_emojis: copy_strings(&self.starboard_emojis),
            starboard_emoji: legacy,
            starred_messages: clone_set(&self.starred_messages),
            starboard_msg_ids: self.starboard_msg_ids.clone(),
        };
        assert(r@ =~= self@);
        r
    }

    /// Fills an empty emoji list from the legacy field, or with the default
    /// star when there is nothing to carry over.
    pub fn migrate_emojis(&mut self)
        ensures
            final(self)@ == migrated(old(self)@),
    {
        if self.starboard_emojis.len() > 0 {
            return;
        }
        let legacy = self.starboard_emoji.take();
        let emojis = match legacy {
            Some(legacy) => {
                let chosen = match normalize(legacy.as_str()) {
                    Some(n) => n,
                    None => legacy,
                };
                let mut v: Vec<String> = Vec::new();
                v.push(chosen);
                assert(texts(v@) =~= seq![chosen@]);
                v
            },
            None => default_emojis(),
        };
        self.starboard_emojis = emojis;
        assert(self@ =~= migrated(old(self)@));
    }
}

/// A user's avatar, uploaded once as an app emoji and reused until they
/// change it.
#[derive(Debug, Clone)]
pub struct AvatarEmoji {
    pub hash: String,
    pub emoji_id: u64,
    pub used_at: u64,
}

pub struct AvatarView {
    pub hash: Seq<char>,
    pub emoji_id: u64,
    pub used_at: u64,
}

impl View for AvatarEmoji {
    type V = AvatarView;

    open spec fn view(&self) -> AvatarView {
        AvatarView { hash: self.hash@, emoji_id: self.emoji_id, used_at: self.used_at }
    }
}

/// The inline form Discord renders in message text: `<:av{user}:{emoji}>`.
pub open spec fn mention_text(user_id: u64, emoji_id: u64) -> Seq<char> {
    "<:av"@ + dec(user_id as nat) + ":"@ + dec(emoji_id as nat) + ">"@
}

impl AvatarEmoji {
    /// The inline form Discord renders in message text.
    pub fn mention(&self, user_id: u64) -> (r: String)
        ensures
            r@ == mention_text(user_id, self.emoji_id),
    {
        let mut out = String::from_str("<:av");
        push_dec(&mut out, user_id);
        out.append(":");
        push_dec(&mut out, self.emoji_id);
        out.append(">");
        out
    }
}

#[verifier::external_type_specification]
#[verifier::external_body]
pub struct ExSystemTime(std::time::SystemTime);

/// `SystemTime::now`: the system clock's current reading. Nothing is stated
/// of it: it is whatever the clock says.
#[verifier::external_body]
fn clock_now() -> std::time::SystemTime {
    std::time::SystemTime::now()
}

/// `SystemTime::duration_since(UNIX_EPOCH)`: how long after the Unix epoch
/// a reading lies; `None` for a reading before the epoch. Nothing is stated
/// of the duration.
#[verifier::external_body]
fn since_epoch(t: &std::time::SystemTime) -> Option<std::time::Duration> {
    match t.duration_since(std::time::UNIX_EPOCH) {
        Ok(d) => Some(d),
        Err(_) => None,
    }
}

/// `Duration::as_secs`: the whole seconds of a duration. The duration is
/// opaque here, so nothing is stated of the number.
#[verifier::external_body]
fn whole_secs(d: &std::time::Duration) -> u64 {
    d.as_secs()
}

/// Seconds since the Unix epoch, read from the system clock (0 if the clock
/// is set before the epoch).
fn now() -> u64 {
    match since_epoch(&clock_now()) {
        Some(d) => whole_secs(&d),
        None => 0,
    }
}

/// Everything the bot keeps between runs.
#[derive(Debug)]
pub struct Store {
    pub guilds: HashMap<u64, GuildConfig>,
    pub avatars: HashMap<u64, AvatarEmoji>,
    /// The file the store is saved to.
    pub path: String,
}

/// `new` is `old` with the entry at `key` set to a value whose view is `v`,
/// every other entry as it was.
pub open spec fn guild_updated(
    old: Map<u64, GuildConfig>,
    new: Map<u64, GuildConfig>,
    key: u64,
    v: GuildView,
) -> bool {
    &&& new.dom() == old.dom().insert(key)
    &&& new[key]@ == v
    &&& forall|k: u64| k != key && #[trigger] old.contains_key(k) ==> new[k] == old[k]
}

impl Store {
    /// A server's settings, or the defaults for a server with none stored.
    pub open spec fn guild_view(&self, guild_id: u64) -> GuildView {
        if self.guilds@.contains_key(guild_id) {
            self.guilds@[guild_id]@
        } else {
            default_guild()
        }
    }

    /// An empty store that saves to `path`.
    pub fn empty(path: &str) -> (r: Self)
        ensures
            r.guilds@ == Map::<u64, GuildConfig>::empty(),
            r.avatars@ == Map::<u64, AvatarEmoji>::empty(),
            r.path@ == path@,
    {
        Store { guilds: HashMap::new(), avatars: HashMap::new(), path: String::from_str(path) }
    }

    /// A copy of a server's settings, the defaults when it has none.
    pub fn guild(&self, guild_id: u64) -> (r: GuildConfig)
        ensures
            r@ == self.guild_view(guild_id),
    {
        match self.guilds.get(&guild_id) {
            Some(cfg) => cfg.copy(),
            None => GuildConfig::default(),
        }
    }

    /// A server's settings for changing, created with the defaults when it
    /// has none.
    pub fn guild_mut(&mut self, guild_id: u64) -> (r: &mut GuildConfig)
        ensures
            (*r)@ == old(self).guild_view(guild_id),
            final(self).guilds@ == old(self).guilds@.insert(guild_id, *final(r)),
            final(self).avatars@ == old(self).avatars@,
            final(self).path@ == old(self).path@,
    {
        self.guilds.entry(guild_id).or_insert(GuildConfig::default())
    }

    /// Whether a message already reached the starboard.
    pub fn is_starred(&self, guild_id: u64, message_id: u64) -> (r: bool)
        ensures
            r == self.guild_view(guild_id).starred_messages.contains(message_id),
    {
        match self.guilds.get(&guild_id) {
            Some(cfg) => cfg.starred_messages.contains(&message_id),
            None => false,
        }
    }

    /// Records that a message reached the starboard.
    pub fn mark_starred(&mut self, guild_id: u64, message_id: u64)
        ensures
            guild_updated(
                old(self).guilds@,
                final(self).guilds@,
                guild_id,
                GuildView {
                    starred_messages: old(self).guild_view(guild_id).starred_messages.insert(
                        message_id,
                    ),
                    ..old(self).guild_view(guild_id)
                },
            ),
            final(self).avatars@ == old(self).avatars@,
            final(self).path@ == old(self).path@,
    {
        let cfg = self.guild_mut(guild_id);
        cfg.starred_messages.insert(message_id);
        assert(cfg@ =~= GuildView {
            starred_messages: old(self).guild_view(guild_id).starred_messages.insert(message_id),
            ..old(self).guild_view(guild_id)
        });
    }

    /// Records the starboard post that stands for a message.
    pub fn set_starboard_msg(&mut self, guild_id: u64, message_id: u64, starboard_msg_id: u64)
        ensures
            guild_updated(
                old(self).guilds@,
                final(self).guilds@,
                guild_id,
                GuildView {
                    starboard_msg_ids: old(self).guild_view(guild_id).starboard_msg_ids.insert(
                        message_id,
                        starboard_msg_id,
                    ),
                    ..old(self).guild_view(guild_id)
                },
            ),
            final(self).avatars@ == old(self).avatars@,
            final(self).path@ == old(self).path@,
    {
        let cfg = self.guild_mut(guild_id);
        cfg.starboard_msg_ids.insert(message_id, starboard_msg_id);
        assert(cfg@ =~= GuildView {
            starboard_msg_ids: old(self).guild_view(guild_id).starboard_msg_ids.insert(
                message_id,
                starboard_msg_id,
            ),
            ..old(self).guild_view(guild_id)
        });
    }

    /// The starboard post recorded for a message.
    pub fn get_starboard_msg(&self, guild_id: u64, message_id: u64) -> (r: Option<u64>)
        ensures
            r == (if self.guild_view(guild_id).starboard_msg_ids.contains_key(message_id) {
                Some(self.guild_view(guild_id).starboard_msg_ids[message_id])
            } else {
                None
            }),
    {
        match self.guilds.get(&guild_id) {
            Some(cfg) => match cfg.starboard_msg_ids.get(&message_id) {
                Some(id) => Some(*id),
                None => None,
            },
            None => None,
        }
    }
}

/// What the avatar cache gives for a user whose avatar is `hash`: the
/// mention of the stored emoji when it was made from that same avatar.
pub open spec fn cached_avatar(avatars: Map<u64, AvatarEmoji>, user_id: u64, hash: Seq<char>) -> Option<
    Seq<char>,
> {
    if avatars.contains_key(user_id) && avatars[user_id].hash@ == hash {
        Some(mention_text(user_id, avatars[user_id].emoji_id))
    } else {
        None
    }
}

impl Store {
    /// A cached avatar emoji for a user whose avatar is still `hash`,
    /// marked as used at `now` so that it outlives older ones.
    pub fn avatar_at(&mut self, user_id: u64, hash: &str, now: u64) -> (r: Option<String>)
        ensures
            crate::emoji::opt_view(r) == cached_avatar(old(self).avatars@, user_id, hash@),
            ({
                let before = old(self).avatars@;
                if before.contains_key(user_id) && before[user_id].hash@ == hash@ {
                    &&& r matches Some(m) && m@ == mention_text(user_id, before[user_id].emoji_id)
                    &&& final(self).avatars@.dom() == before.dom()
                    &&& final(self).avatars@[user_id]@ == (AvatarView {
                        used_at: now,
                        ..before[user_id]@
                    })
                    &&& forall|k: u64|
                        k != user_id && #[trigger] before.contains_key(k) ==> final(self).avatars@[k]
                            == before[k]
                } else {
                    &&& r is None
                    &&& final(self).avatars@ == before
                }
            }),
            final(self).guilds@ == old(self).guilds@,
            final(self).path@ == old(self).path@,
    {
        let (emoji_id, kept) = match self.avatars.get(&user_id) {
            Some(entry) => {
                if !same_text(entry.hash.as_str(), hash) {
                    return None;
                }
                (entry.emoji_id, entry.hash.clone())
            },
            None => {
                return None;
            },
        };
        let entry = AvatarEmoji { hash: kept, emoji_id, used_at: now };
        let mention = entry.mention(user_id);
        self.avatars.insert(user_id, entry);
        Some(mention)
    }

    /// A cached avatar emoji for a user whose avatar is still `hash`, marked
    /// as just used.
    pub fn avatar(&mut self, user_id: u64, hash: &str) -> (r: Option<String>)
        ensures
            crate::emoji::opt_view(r) == cached_avatar(old(self).avatars@, user_id, hash@),
            ({
                let before = old(self).avatars@;
                if before.contains_key(user_id) && before[user_id].hash@ == hash@ {
                    &&& r matches Some(m) && m@ == mention_text(user_id, before[user_id].emoji_id)
                    &&& final(self).avatars@.dom() == before.dom()
                    &&& final(self).avatars@[user_id].hash@ == hash@
                    &&& final(self).avatars@[user_id].emoji_id == before[user_id].emoji_id
                    &&& forall|k: u64|
                        k != user_id && #[trigger] before.contains_key(k) ==> final(self).avatars@[k]
                            == before[k]
                } else {
                    &&& r is None
                    &&& final(self).avatars@ == before
                }
            }),
            final(self).guilds@ == old(self).guilds@,
            final(self).path@ == old(self).path@,
    {
        let t = now();
        self.avatar_at(user_id, hash, t)
    }

    /// The key of a least recently used avatar, `None` when there is none.
    fn oldest_avatar(&self) -> (r: Option<u64>)
        ensures
            match r {
                Some(k) => {
                    &&& self.avatars@.contains_key(k)
                    &&& forall|j: u64| #[trigger]
                        self.avatars@.contains_key(j) ==> self.avatars@[k].used_at
                            <= self.avatars@[j].used_at
                },
                None => self.avatars@.len() == 0,
            },
    {
        let keys = keys_of(&self.avatars);
        let mut best: Option<u64> = None;
        let mut best_at: u64 = 0;
        let mut i: usize = 0;
        while i < keys.len()
            invariant
                i <= keys@.len(),
                keys@.to_set() == self.avatars@.dom(),
                match best {
                    Some(k) => {
                        &&& self.avatars@.contains_key(k)
                        &&& self.avatars@[k].used_at == best_at
                        &&& forall|j: int|
                            0 <= j < i ==> best_at <= self.avatars@[#[trigger] keys@[j]].used_at
                    },
                    None => i == 0,
                },
            decreases keys.len() - i,
        {
            let k = keys[i];
            assert(keys@.to_set().contains(k));
            match self.avatars.get(&k) {
                Some(entry) => {
                    if best.is_none() || entry.used_at < best_at {
                        best = Some(k);
                        best_at = entry.used_at;
                    }
                },
                None => {},
            }
            i = i + 1;
        }
        match best {
            Some(k) => {
                assert forall|j: u64| #[trigger]
                    self.avatars@.contains_key(j) implies self.avatars@[k].used_at
                    <= self.avatars@[j].used_at by {
                    assert(keys@.to_set().contains(j));
                    let n = choose|n: int| 0 <= n < keys@.len() && keys@[n] == j;
                    assert(keys@[n] == j);
                }
            },
            None => {
                proof {
                    if self.avatars@.len() != 0 {
                        let j = self.avatars@.dom().choose();
                        assert(keys@.to_set().contains(j));
                    }
                }
            },
        }
        best
    }

    /// Forgets the user's outdated avatar and, when the app's emoji list is
    /// full (`max` or more), the least recently used ones until it is not,
    /// returning the emojis that should be deleted.
    pub fn take_stale_avatars(&mut self, user_id: u64, max: usize) -> (r: Vec<u64>)
        ensures
            exists|order: Seq<u64>|
                {
                    &&& lru_eviction(
                        old(self).avatars@.remove(user_id),
                        final(self).avatars@,
                        order,
                        max,
                    )
                    &&& r@ == (if old(self).avatars@.contains_key(user_id) {
                        seq![old(self).avatars@[user_id].emoji_id]
                    } else {
                        Seq::<u64>::empty()
                    }) + order.map_values(|k: u64| old(self).avatars@[k].emoji_id)
                },
            final(self).guilds@ == old(self).guilds@,
            final(self).path@ == old(self).path@,
    {
        let mut stale: Vec<u64> = Vec::new();
        match self.avatars.remove(&user_id) {
            Some(entry) => stale.push(entry.emoji_id),
            None => {},
        }
        let ghost before = self.avatars@;
        let ghost prefix = stale@;
        let ghost mut order: Seq<u64> = Seq::empty();
        assert(before == old(self).avatars@.remove(user_id));
        assert(stale@ =~= prefix + order.map_values(|k: u64| old(self).avatars@[k].emoji_id));
        while self.avatars.len() >= max && self.avatars.len() > 0
            invariant
                before == old(self).avatars@.remove(user_id),
                prefix == (if old(self).avatars@.contains_key(user_id) {
                    seq![old(self).avatars@[user_id].emoji_id]
                } else {
                    Seq::<u64>::empty()
                }),
                eviction_so_far(before, self.avatars@, order),
                stale@ == prefix + order.map_values(|k: u64| old(self).avatars@[k].emoji_id),
                before.len() < max ==> order.len() == 0,
                before.len() >= max ==> self.avatars@.len() + 1 >= max,
                self.guilds@ == old(self).guilds@,
                self.path@ == old(self).path@,
            decreases self.avatars@.len(),
        {
            match self.oldest_avatar() {
                Some(k) => {
                    let ghost after = self.avatars@;
                    let removed = self.avatars.remove(&k);
                    match removed {
                        Some(entry) => {
                            stale.push(entry.emoji_id);
                        },
                        None => {},
                    }
                    proof {
                        lemma_evict_one(before, after, self.avatars@, order, k);
                        assert(old(self).avatars@[k] == before[k]);
                        assert((prefix + order.map_values(|k: u64| old(self).avatars@[k].emoji_id)).push(
                            old(self).avatars@[k].emoji_id,
                        ) =~= prefix + order.push(k).map_values(
                            |k: u64| old(self).avatars@[k].emoji_id,
                        ));
                        order = order.push(k);
                    }
                },
                None => {},
            }
        }
        proof {
            lemma_eviction_done(before, self.avatars@, order, max);
        }
        stale
    }

    /// Stores the emoji uploaded for a user's current avatar, used at `now`,
    /// and returns its inline form.
    pub fn set_avatar_at(&mut self, user_id: u64, hash: String, emoji_id: u64, now: u64) -> (r:
        String)
        ensures
            r@ == mention_text(user_id, emoji_id),
            final(self).avatars@.dom() == old(self).avatars@.dom().insert(user_id),
            final(self).avatars@[user_id]@ == (AvatarView { hash: hash@, emoji_id, used_at: now }),
            forall|k: u64|
                k != user_id && #[trigger] old(self).avatars@.contains_key(k) ==> final(self).avatars@[k]
                    == old(self).avatars@[k],
            final(self).guilds@ == old(self).guilds@,
            final(self).path@ == old(self).path@,
    {
        let entry = AvatarEmoji { hash, emoji_id, used_at: now };
        let mention = entry.mention(user_id);
        self.avatars.insert(user_id, entry);
        mention
    }

    /// Stores the emoji uploaded for a user's current avatar, used now, and
    /// returns its inline form.
    pub fn set_avatar(&mut self, user_id: u64, hash: String, emoji_id: u64) -> (r: String)
        ensures
            r@ == mention_text(user_id, emoji_id),
            final(self).avatars@.dom() == old(self).avatars@.dom().insert(user_id),
            final(self).avatars@[user_id].hash@ == hash@,
            final(self).avatars@[user_id].emoji_id == emoji_id,
            forall|k: u64|
                k != user_id && #[trigger] old(self).avatars@.contains_key(k) ==> final(self).avatars@[k]
                    == old(self).avatars@[k],
            final(self).guilds@ == old(self).guilds@,
            final(self).path@ == old(self).path@,
    {
        let t = now();
        self.set_avatar_at(user_id, hash, emoji_id, t)
    }
}

/// Part of the way through an eviction: `after` is what is left of
/// `before`, `order` the keys taken out so far, least recently used first,
/// none of them used later than anything still kept.
pub open spec fn eviction_so_far(
    before: Map<u64, AvatarEmoji>,
    after: Map<u64, AvatarEmoji>,
    order: Seq<u64>,
) -> bool {
    &&& forall|k: u64| #[trigger]
        after.contains_key(k) ==> before.contains_key(k) && after[k] == before[k]
    &&& forall|k: u64| #[trigger]
        before.contains_key(k) ==> (after.contains_key(k) || order.contains(k))
    &&& forall|i: int|
        0 <= i < order.len() ==> before.contains_key(#[trigger] order[i]) && !after.contains_key(
            order[i],
        )
    &&& order.no_duplicates()
    &&& forall|i: int, j: int|
        0 <= i < j < order.len() ==> before[#[trigger] order[i]].used_at <= before[#[trigger] order[j]].used_at
    &&& forall|i: int, k: u64|
        0 <= i < order.len() && #[trigger] after.contains_key(k) ==> before[#[trigger] order[i]].used_at
            <= after[k].used_at
    &&& after.len() + order.len() == before.len()
}

/// A finished eviction: on top of `eviction_so_far`, exactly as many entries
/// are gone as it takes to leave fewer than `max` (none when `max` is 0).
pub open spec fn lru_eviction(
    before: Map<u64, AvatarEmoji>,
    after: Map<u64, AvatarEmoji>,
    order: Seq<u64>,
    max: usize,
) -> bool {
    &&& eviction_so_far(before, after, order)
    &&& after.len() == (if before.len() < max {
        before.len() as int
    } else if max > 0 {
        max - 1
    } else {
        0
    })
}

proof fn lemma_evict_one(
    before: Map<u64, AvatarEmoji>,
    after: Map<u64, AvatarEmoji>,
    next: Map<u64, AvatarEmoji>,
    order: Seq<u64>,
    k: u64,
)
    requires
        eviction_so_far(before, after, order),
        after.contains_key(k),
        forall|j: u64| #[trigger] after.contains_key(j) ==> after[k].used_at <= after[j].used_at,
        next == after.remove(k),
        after.dom().finite(),
    ensures
        eviction_so_far(before, next, order.push(k)),
        next.len() + 1 == after.len(),
{
    let o2 = order.push(k);
    assert(next.dom() =~= after.dom().remove(k));
    assert forall|j: u64| #[trigger] before.contains_key(j) implies (next.contains_key(j)
        || o2.contains(j)) by {
        if j == k {
            assert(o2[order.len() as int] == k);
        } else if !next.contains_key(j) {
            assert(order.contains(j));
            let n = choose|n: int| 0 <= n < order.len() && order[n] == j;
            assert(o2[n] == j);
        }
    }
    assert forall|i: int, j: int| 0 <= i < j < o2.len() implies before[#[trigger] o2[i]].used_at
        <= before[#[trigger] o2[j]].used_at by {
        if j == order.len() {
            assert(o2[i] == order[i]);
        } else {
            assert(o2[i] == order[i]);
            assert(o2[j] == order[j]);
        }
    }
    assert forall|i: int, j: u64| 0 <= i < o2.len() && #[trigger] next.contains_key(j) implies before[#[trigger] o2[i]].used_at
        <= next[j].used_at by {
        assert(after.contains_key(j));
        if i < order.len() {
            assert(o2[i] == order[i]);
        }
    }
    assert forall|i: int| 0 <= i < o2.len() implies before.contains_key(#[trigger] o2[i])
        && !next.contains_key(o2[i]) by {
        if i < order.len() {
            assert(o2[i] == order[i]);
        }
    }
    assert(o2.no_duplicates()) by {
        assert forall|i: int, j: int|
            0 <= i < o2.len() && 0 <= j < o2.len() && i != j implies o2[i] != o2[j] by {
            if i == order.len() {
                assert(o2[j] == order[j]);
                assert(!after.contains_key(o2[j]));
            } else if j == order.len() {
                assert(o2[i] == order[i]);
                assert(!after.contains_key(o2[i]));
            } else {
                assert(o2[i] == order[i]);
                assert(o2[j] == order[j]);
            }
        }
    }
}

proof fn lemma_eviction_done(
    before: Map<u64, AvatarEmoji>,
    after: Map<u64, AvatarEmoji>,
    order: Seq<u64>,
    max: usize,
)
    requires
        eviction_so_far(before, after, order),
        before.len() < max ==> order.len() == 0,
        before.len() >= max ==> after.len() + 1 >= max,
        !(after.len() >= max && after.len() > 0),
    ensures
        lru_eviction(before, after, order, max),
{
}

impl Store {
    /// The store as it was saved to `path`, with every server's legacy
    /// single emoji folded into its emoji list.
    pub fn restore(
        path: &str,
        guilds: HashMap<u64, GuildConfig>,
        avatars: HashMap<u64, AvatarEmoji>,
    ) -> (r: Self)
        ensures
            r.path@ == path@,
            r.avatars@ == avatars@,
            r.guilds@.dom() == guilds@.dom(),
            forall|k: u64| #[trigger] guilds@.contains_key(k) ==> r.guilds@[k]@ == migrated(guilds@[k]@),
    {
        let keys = keys_of(&guilds);
        let ghost original = guilds@;
        let mut guilds = guilds;
        let mut i: usize = 0;
        while i < keys.len()
            invariant
                i <= keys@.len(),
                keys@.to_set() == original.dom(),
                keys@.no_duplicates(),
                guilds@.dom() == original.dom(),
                forall|j: int| 0 <= j < i ==> guilds@[#[trigger] keys@[j]]@ == migrated(original[keys@[j]]@),
                forall|k: u64| #[trigger] original.contains_key(k) && !keys@.take(i as int).contains(k) ==> guilds@[k] == original[k],
            decreases keys.len() - i,
        {
            let k = keys[i];
            assert(keys@.to_set().contains(k));
            assert(!keys@.take(i as int).contains(k)) by {
                if keys@.take(i as int).contains(k) {
                    let n = choose|n: int| 0 <= n < i && keys@.take(i as int)[n] == k;
                    assert(keys@[n] == keys@[i as int]);
                }
            }
            match guilds.remove(&k) {
                Some(cfg) => {
                    let mut cfg = cfg;
                    cfg.migrate_emojis();
                    guilds.insert(k, cfg);
                },
                None => {},
            }
            assert forall|j: int| 0 <= j < i + 1 implies guilds@[#[trigger] keys@[j]]@ == migrated(original[keys@[j]]@) by {
                if j < i {
                    assert(keys@[j] != k);
                }
            }
            assert forall|m: u64| #[trigger] original.contains_key(m) && !keys@.take(i + 1).contains(m) implies guilds@[m] == original[m] by {
                assert(!keys@.take(i as int).contains(m)) by {
                    if keys@.take(i as int).contains(m) {
                        let n = choose|n: int| 0 <= n < i && keys@.take(i as int)[n] == m;
                        assert(keys@.take(i + 1)[n] == m);
                    }
                }
                assert(m != k) by {
                    assert(keys@.take(i + 1)[i as int] == k);
                }
            }
            assert(guilds@.dom() =~= original.dom());
            i = i + 1;
        }
        assert forall|k: u64| #[trigger] original.contains_key(k) implies guilds@[k]@ == migrated(original[k]@) by {
            assert(keys@.to_set().contains(k));
            let n = choose|n: int| 0 <= n < keys@.len() && keys@[n] == k;
            assert(guilds@[keys@[n]]@ == migrated(original[keys@[n]]@));
        }
        Store { guilds, avatars, path: String::from_str(path) }
    }
}

/// After migration a server always has at least one starboard emoji.
pub proof fn migration_leaves_an_emoji(g: GuildView)
    ensures
        migrated(g).starboard_emojis.len() > 0,
{
}

/// Migrating settings that were already migrated changes nothing, so a
/// store saved after loading loads back the same.
pub proof fn migration_is_idempotent(g: GuildView)
    ensures
        migrated(migrated(g)) == migrated(g),
{
}

/// A server that never configured anything has the default settings: no
/// channel, a threshold of three, and the star emoji.
pub proof fn unconfigured_server_has_defaults(store: Store, guild_id: u64)
    requires
        !store.guilds@.contains_key(guild_id),
    ensures
        store.guild_view(guild_id).starboard_channel is None,
        store.guild_view(guild_id).min_stars == 3,
        store.guild_view(guild_id).starboard_emojis == seq!["⭐"@],
{
}

/// After a message is marked starred, the store reports it starred, and no
/// other server's settings change.
pub proof fn marked_message_reads_starred(before: Store, after: Store, guild_id: u64, message_id: u64)
    requires
        guild_updated(
            before.guilds@,
            after.guilds@,
            guild_id,
            GuildView {
                starred_messages: before.guild_view(guild_id).starred_messages.insert(message_id),
                ..before.guild_view(guild_id)
            },
        ),
    ensures
        after.guild_view(guild_id).starred_messages.contains(message_id),
        forall|other: u64| other != guild_id ==> #[trigger] after.guild_view(other) == before.guild_view(other),
{
    assert forall|other: u64| other != guild_id implies #[trigger] after.guild_view(other) == before.guild_view(other) by {
        if before.guilds@.contains_key(other) {
            assert(after.guilds@[other] == before.guilds@[other]);
        } else {
            assert(!after.guilds@.dom().contains(other));
        }
    }
}

/// After the post of a message is recorded, looking it up gives that post,
/// and no other server's settings change.
pub proof fn recorded_post_reads_back(
    before: Store,
    after: Store,
    guild_id: u64,
    message_id: u64,
    post_id: u64,
)
    requires
        guild_updated(
            before.guilds@,
            after.guilds@,
            guild_id,
            GuildView {
                starboard_msg_ids: before.guild_view(guild_id).starboard_msg_ids.insert(
                    message_id,
                    post_id,
                ),
                ..before.guild_view(guild_id)
            },
        ),
    ensures
        after.guild_view(guild_id).starboard_msg_ids.contains_key(message_id),
        after.guild_view(guild_id).starboard_msg_ids[message_id] == post_id,
        forall|other: u64| other != guild_id ==> #[trigger] after.guild_view(other) == before.guild_view(other),
{
    assert forall|other: u64| other != guild_id implies #[trigger] after.guild_view(other) == before.guild_view(other) by {
        if before.guilds@.contains_key(other) {
            assert(after.guilds@[other] == before.guilds@[other]);
        } else {
            assert(!after.guilds@.dom().contains(other));
        }
    }
}

/// An avatar emoji just stored is found again while the user's avatar hash
/// is the same, as the stored emoji's mention; another hash misses.
pub proof fn stored_avatar_is_found(
    after: Map<u64, AvatarEmoji>,
    user_id: u64,
    hash: Seq<char>,
    emoji_id: u64,
    now: u64,
    other_hash: Seq<char>,
)
    requires
        after.contains_key(user_id),
        after[user_id]@ == (AvatarView { hash, emoji_id, used_at: now }),
        other_hash != hash,
    ensures
        cached_avatar(after, user_id, hash) == Some(mention_text(user_id, emoji_id)),
        cached_avatar(after, user_id, other_hash) is None,
{
}

/// A cache hit makes the avatar the most recently used one: when the time of
/// the hit is later than every other entry's last use, the next eviction for
/// another user, with room for at least two avatars, keeps it and evicts
/// older ones first.
pub proof fn just_used_avatar_survives_eviction(
    before: Map<u64, AvatarEmoji>,
    hit: Map<u64, AvatarEmoji>,
    after: Map<u64, AvatarEmoji>,
    order: Seq<u64>,
    user_id: u64,
    hash: Seq<char>,
    now: u64,
    new_user: u64,
    max: usize,
)
    requires
        before.dom().finite(),
        after.dom().finite(),
        before.contains_key(user_id),
        before[user_id].hash@ == hash,
        hit.dom() == before.dom(),
        hit[user_id]@ == (AvatarView { used_at: now, ..before[user_id]@ }),
        forall|k: u64| k != user_id && #[trigger] before.contains_key(k) ==> hit[k] == before[k],
        forall|k: u64| k != user_id && #[trigger] before.contains_key(k) ==> before[k].used_at < now,
        new_user != user_id,
        max >= 2,
        lru_eviction(hit.remove(new_user), after, order, max),
    ensures
        after.contains_key(user_id),
{
    let rest = hit.remove(new_user);
    assert(rest.contains_key(user_id));
    assert(rest.dom() =~= before.dom().remove(new_user));
    if !after.contains_key(user_id) {
        assert(order.contains(user_id));
        let i = choose|i: int| 0 <= i < order.len() && order[i] == user_id;
        assert(after.len() > 0) by {
            if rest.len() < max {
                assert(rest.dom().contains(user_id));
                assert(rest.dom().len() > 0);
            }
        }
        let k = after.dom().choose();
        assert(after.dom().contains(k));
        assert(rest.contains_key(k) && after[k] == rest[k]);
        assert(k != user_id);
        assert(rest[order[i]].used_at <= after[k].used_at);
        assert(before.contains_key(k));
        assert(false);
    }
}

/// After stale avatars are taken, the user's old avatar is gone and the
/// app's emoji list has room for one more (fewer than `max` are left), and
/// nothing kept was used earlier than what was evicted.
pub proof fn eviction_makes_room(
    before: Map<u64, AvatarEmoji>,
    after: Map<u64, AvatarEmoji>,
    order: Seq<u64>,
    max: usize,
    user_id: u64,
)
    requires
        lru_eviction(before.remove(user_id), after, order, max),
        max > 0,
    ensures
        after.len() < max,
        !after.contains_key(user_id),
        forall|i: int, k: u64|
            0 <= i < order.len() && #[trigger] after.contains_key(k) ==> before[#[trigger] order[i]].used_at
                <= after[k].used_at,
{
    let rest = before.remove(user_id);
    if after.contains_key(user_id) {
        assert(rest.contains_key(user_id));
    }
    assert forall|i: int, k: u64|
        0 <= i < order.len() && #[trigger] after.contains_key(k) implies before[#[trigger] order[i]].used_at
        <= after[k].used_at by {
        assert(rest.contains_key(order[i]));
        assert(rest[order[i]] == before[order[i]]);
    }
}

} // verus!
