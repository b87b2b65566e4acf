//! The decisions behind the bot's event handling: which reactions count,
//! when a message goes to the starboard, and how the emoji panel changes the
//! configured list. The Discord calls around them are made by the caller.
use std::collections::HashSet;

use vstd::prelude::*;

use crate::emoji::{find, find_spec, normalize, normalize_spec, ReactionType, MAX_EMOJIS};
use crate::storage::{GuildConfig, GuildView, Store};
use crate::text::{chars_of, same_chars, same_text, string_of, sub_vec, texts};

verus! {

broadcast use {vstd::std_specs::hash::group_hash_axioms, vstd::set::group_set_axioms};

/// Custom id of the panel's "add emoji" button.
pub const ADD_ID: &'static str = "sb:add";

/// Custom id prefix of the panel's remove buttons; the emoji follows it.
pub const REMOVE_PREFIX: &'static str = "sb:rm:";

/// Custom id of the modal that asks for a new emoji.
pub const MODAL_ID: &'static str = "sb:add:modal";

/// Custom id of the modal's text input.
pub const INPUT_ID: &'static str = "sb:add:input";

/// Custom ids of the components this bot owns start with this.
pub const COMPONENT_PREFIX: &'static str = "sb:";

// ---------------------------------------------------------------------------
// the emoji panel
// ---------------------------------------------------------------------------

/// `list` without the entries equal to `target`, the rest in order.
pub open spec fn without(list: Seq<Seq<char>>, target: Seq<char>) -> Seq<Seq<char>>
    decreases list.len(),
{
    if list.len() == 0 {
        Seq::empty()
    } else {
        let rest = without(list.drop_last(), target);
        if list.last() == target {
            rest
        } else {
            rest.push(list.last())
        }
    }
}

/// The emoji list after a remove button was pressed: the emoji is taken out,
/// unless it is the only one left.
pub open spec fn removed(list: Seq<Seq<char>>, target: Seq<char>) -> Seq<Seq<char>> {
    if list.len() > 1 {
        without(list, target)
    } else {
        list
    }
}

/// What came of a submitted emoji.
pub enum AddOutcome {
    /// It was added, in this stored form.
    Added(String),
    /// It does not read as an emoji.
    NotAnEmoji,
    /// It is configured already, in this stored form.
    AlreadySet(String),
    /// The list is full.
    Full,
}

/// The emoji list after an emoji was submitted: its stored form is appended
/// when it reads as an emoji, is not listed yet and the list has room.
pub open spec fn added(list: Seq<Seq<char>>, submitted: Seq<char>) -> Seq<Seq<char>> {
    match normalize_spec(submitted) {
        Some(n) => if list.contains(n) || list.len() >= MAX_EMOJIS {
            list
        } else {
            list.push(n)
        },
        None => list,
    }
}

/// What the user is told about a submitted emoji.
pub open spec fn add_outcome_spec(list: Seq<Seq<char>>, submitted: Seq<char>, outcome: AddOutcome) -> bool {
    match normalize_spec(submitted) {
        None => outcome is NotAnEmoji,
        Some(n) => if list.contains(n) {
            outcome matches AddOutcome::AlreadySet(s) && s@ == n
        } else if list.len() >= MAX_EMOJIS {
            outcome is Full
        } else {
            outcome matches AddOutcome::Added(s) && s@ == n
        },
    }
}

fn contains_text(list: &Vec<String>, item: &String) -> (r: bool)
    ensures
        r == texts(list@).contains(item@),
{
    let mut i: usize = 0;
    while i < list.len()
        invariant
            i <= list@.len(),
            forall|j: int| 0 <= j < i ==> list@[j]@ != item@,
        decreases list.len() - i,
    {
        if same_text(list[i].as_str(), item.as_str()) {
            assert(texts(list@)[i as int] == item@);
            return true;
        }
        i = i + 1;
    }
    assert forall|j: int| 0 <= j < texts(list@).len() implies texts(list@)[j] != item@ by {
        assert(texts(list@)[j] == list@[j]@);
    }
    false
}

impl GuildConfig {
    /// Takes an emoji off the list, unless it is the last one.
    pub fn remove_emoji(&mut self, target: &str)
        ensures
            final(self)@ == (GuildView {
                starboard_emojis: removed(old(self)@.starboard_emojis, target@),
                ..old(self)@
            }),
    {
        if self.starboard_emojis.len() <= 1 {
            return;
        }
        let mut kept: Vec<String> = Vec::new();
        let mut i: usize = 0;
        let ghost list = texts(self.starboard_emojis@);
        while i < self.starboard_emojis.len()
            invariant
                i <= self.starboard_emojis@.len(),
                list == texts(self.starboard_emojis@),
                texts(kept@) == without(list.take(i as int), target@),
            decreases self.starboard_emojis.len() - i,
        {
            assert(list.take(i + 1).drop_last() =~= list.take(i as int));
            assert(list[i as int] == self.starboard_emojis@[i as int]@);
            if !same_text(self.starboard_emojis[i].as_str(), target) {
                let ghost before = kept@;
                kept.push(self.starboard_emojis[i].clone());
                assert(texts(kept@) =~= texts(before).push(list[i as int]));
            }
            i = i + 1;
        }
        assert(list.take(list.len() as int) =~= list);
        self.starboard_emojis = kept;
        assert(self@ =~= GuildView {
            starboard_emojis: removed(old(self)@.starboard_emojis, target@),
            ..old(self)@
        });
    }

    /// Adds a submitted emoji in its stored form, when it reads as an
    /// emoji, is not listed yet and the list has room.
    pub fn add_emoji(&mut self, submitted: &str) -> (r: AddOutcome)
        ensures
            final(self)@ == (GuildView {
                starboard_emojis: added(old(self)@.starboard_emojis, submitted@),
                ..old(self)@
            }),
            add_outcome_spec(old(self)@.starboard_emojis, submitted@, r),
    {
        let normalized = match normalize(submitted) {
            Some(n) => n,
            None => {
                return AddOutcome::NotAnEmoji;
            },
        };
        if contains_text(&self.starboard_emojis, &normalized) {
            return AddOutcome::AlreadySet(normalized);
        }
        if self.starboard_emojis.len() >= MAX_EMOJIS {
            return AddOutcome::Full;
        }
        let kept = normalized.clone();
        self.starboard_emojis.push(normalized);
        assert(texts(self.starboard_emojis@) =~= texts(old(self).starboard_emojis@).push(kept@));
        assert(self@ =~= GuildView {
            starboard_emojis: added(old(self)@.starboard_emojis, submitted@),
            ..old(self)@
        });
        AddOutcome::Added(kept)
    }
}

impl AddOutcome {
    /// The one-line notice the user gets; `None` when the panel is redrawn
    /// instead.
    pub fn notice(&self) -> (r: Option<String>)
        ensures
            match self {
                AddOutcome::Added(_) => r is None,
                AddOutcome::NotAnEmoji => r matches Some(s) && s@ == "that doesn't look like an emoji"@,
                AddOutcome::AlreadySet(n) => r matches Some(s) && s@ == n@ + " is already set"@,
                AddOutcome::Full => r matches Some(s) && s@ == "you can only have "@ + crate::text::dec(
                    MAX_EMOJIS as nat,
                ) + " emojis"@,
            },
    {
        match self {
            AddOutcome::Added(_) => None,
            AddOutcome::NotAnEmoji => Some(String::from_str("that doesn't look like an emoji")),
            AddOutcome::AlreadySet(n) => {
                let mut s = n.clone();
                s.append(" is already set");
                Some(s)
            },
            AddOutcome::Full => {
                let mut s = String::from_str("you can only have ");
                crate::text::push_dec(&mut s, MAX_EMOJIS as u64);
                s.append(" emojis");
                Some(s)
            },
        }
    }
}

/// A list without repeats.
pub open spec fn distinct(list: Seq<Seq<char>>) -> bool {
    forall|i: int, j: int| 0 <= i < j < list.len() ==> list[i] != list[j]
}

proof fn lemma_without_keeps_others(list: Seq<Seq<char>>, target: Seq<char>, x: Seq<char>)
    requires
        x != target,
    ensures
        list.contains(x) ==> without(list, target).contains(x),
        without(list, target).contains(x) ==> list.contains(x),
    decreases list.len(),
{
    if list.len() > 0 {
        lemma_without_keeps_others(list.drop_last(), target, x);
        let rest = without(list.drop_last(), target);
        if list.contains(x) {
            let i = choose|i: int| 0 <= i < list.len() && list[i] == x;
            if i < list.len() - 1 {
                assert(list.drop_last()[i] == x);
            }
            if list.last() != target {
                assert(rest.push(list.last())[rest.len() as int] == list.last());
                if rest.contains(x) {
                    let k = choose|k: int| 0 <= k < rest.len() && rest[k] == x;
                    assert(rest.push(list.last())[k] == x);
                }
            }
        }
        if without(list, target).contains(x) {
            let k = choose|k: int| 0 <= k < without(list, target).len() && without(list, target)[k] == x;
            if list.last() != target && k == rest.len() {
                assert(list[list.len() - 1] == x);
            } else {
                assert(rest[k] == x);
                let i = choose|i: int| 0 <= i < list.drop_last().len() && list.drop_last()[i] == x;
                assert(list[i] == x);
            }
        }
    }
}

/// Removing an emoji never empties the list, unless every one of its
/// several entries is that emoji.
pub proof fn removing_keeps_an_emoji(list: Seq<Seq<char>>, target: Seq<char>)
    requires
        list.len() > 0,
        list.len() > 1 ==> exists|i: int| 0 <= i < list.len() && list[i] != target,
    ensures
        removed(list, target).len() > 0,
{
    if list.len() > 1 {
        let i = choose|i: int| 0 <= i < list.len() && list[i] != target;
        let x = list[i];
        assert(list.contains(x));
        lemma_without_keeps_others(list, target, x);
    }
}

/// A list without repeats, as adding emojis keeps it, never loses its last
/// emoji to a removal.
pub proof fn removing_from_a_list_without_repeats_keeps_an_emoji(list: Seq<Seq<char>>, target: Seq<char>)
    requires
        list.len() > 0,
        distinct(list),
    ensures
        removed(list, target).len() > 0,
{
    if list.len() > 1 {
        let i = if list[0] != target {
            0int
        } else {
            1int
        };
        assert(list[i] != target);
    }
    removing_keeps_an_emoji(list, target);
}

/// Adding an emoji keeps the list within `MAX_EMOJIS` and without repeats.
pub proof fn adding_keeps_the_list_valid(list: Seq<Seq<char>>, submitted: Seq<char>)
    requires
        list.len() <= MAX_EMOJIS,
        distinct(list),
    ensures
        added(list, submitted).len() <= MAX_EMOJIS,
        distinct(added(list, submitted)),
{
    match normalize_spec(submitted) {
        Some(n) => {
            if !(list.contains(n) || list.len() >= MAX_EMOJIS) {
                let l2 = list.push(n);
                assert forall|i: int, j: int| 0 <= i < j < l2.len() implies l2[i] != l2[j] by {
                    if j == list.len() {
                        assert(l2[i] == list[i]);
                        assert(list.contains(list[i]));
                    }
                }
            }
        },
        None => {},
    }
}


// ---------------------------------------------------------------------------
// component routing
// ---------------------------------------------------------------------------

pub open spec fn starts_with(s: Seq<char>, prefix: Seq<char>) -> bool {
    s.len() >= prefix.len() && s.take(prefix.len() as int) == prefix
}

fn has_prefix(s: &str, prefix: &str) -> (r: bool)
    ensures
        r == starts_with(s@, prefix@),
{
    let v = chars_of(s);
    let p = chars_of(prefix);
    if v.len() < p.len() {
        return false;
    }
    same_chars(sub_vec(v.as_slice(), 0, p.len()).as_slice(), p.as_slice())
}

/// Whether an interaction comes from one of this bot's components.
pub fn is_own_component(custom_id: &str) -> (r: bool)
    ensures
        r == starts_with(custom_id@, COMPONENT_PREFIX@),
{
    has_prefix(custom_id, COMPONENT_PREFIX)
}

/// Whether a submitted modal is the one that asks for a new emoji.
pub fn is_add_modal(custom_id: &str) -> (r: bool)
    ensures
        r == (custom_id@ == MODAL_ID@),
{
    same_text(custom_id, MODAL_ID)
}

/// What a press on the emoji panel asks for.
pub enum PanelAction {
    /// Open the modal that asks for a new emoji.
    OpenModal,
    /// Remove this emoji.
    Remove(String),
    /// Nothing this panel knows.
    Ignore,
}

/// The press of the add button opens the modal; that of a remove button
/// names the emoji after the prefix.
pub fn panel_action(custom_id: &str) -> (r: PanelAction)
    ensures
        custom_id@ == ADD_ID@ ==> r is OpenModal,
        custom_id@ != ADD_ID@ && starts_with(custom_id@, REMOVE_PREFIX@) ==> (r matches PanelAction::Remove(t) && t@ == custom_id@.skip(REMOVE_PREFIX@.len() as int)),
        custom_id@ != ADD_ID@ && !starts_with(custom_id@, REMOVE_PREFIX@) ==> r is Ignore,
{
    if same_text(custom_id, ADD_ID) {
        return PanelAction::OpenModal;
    }
    if has_prefix(custom_id, REMOVE_PREFIX) {
        let v = chars_of(custom_id);
        let p = chars_of(REMOVE_PREFIX);
        let t = string_of(sub_vec(v.as_slice(), p.len(), v.len()).as_slice());
        assert(v@.subrange(p@.len() as int, v@.len() as int) =~= custom_id@.skip(REMOVE_PREFIX@.len() as int));
        return PanelAction::Remove(t);
    }
    PanelAction::Ignore
}

/// The text submitted in the modal: the value of the first text input with
/// the expected id that has one, or nothing.
pub open spec fn submitted_spec(inputs: Seq<(String, Option<String>)>) -> Seq<char>
    decreases inputs.len(),
{
    if inputs.len() == 0 {
        Seq::empty()
    } else {
        match inputs[0].1 {
            Some(v) => if inputs[0].0@ == INPUT_ID@ {
                v@
            } else {
                submitted_spec(inputs.drop_first())
            },
            None => submitted_spec(inputs.drop_first()),
        }
    }
}

/// Picks the submitted emoji out of the modal's text inputs, given as
/// `(custom id, value)`.
pub fn submitted(inputs: &[(String, Option<String>)]) -> (r: String)
    ensures
        r@ == submitted_spec(inputs@),
{
    let mut i: usize = 0;
    assert(inputs@.skip(0) =~= inputs@);
    while i < inputs.len()
        invariant
            i <= inputs@.len(),
            submitted_spec(inputs@) == submitted_spec(inputs@.skip(i as int)),
        decreases inputs.len() - i,
    {
        let ghost rest = inputs@.skip(i as int);
        assert(rest.drop_first() =~= inputs@.skip(i + 1));
        assert(rest[0] == inputs@[i as int]);
        match &inputs[i].1 {
            Some(v) => {
                if same_text(inputs[i].0.as_str(), INPUT_ID) {
                    return v.clone();
                }
            },
            None => {},
        }
        i = i + 1;
    }
    assert(inputs@.skip(inputs@.len() as int) =~= Seq::<(String, Option<String>)>::empty());
    String::new()
}

/// Permission bit: the member is an administrator.
pub const ADMINISTRATOR: u64 = 1 << 3;

/// Whether a member with these permissions (`None` when the interaction
/// carries no member or no permissions) may change the configuration.
pub fn is_admin(permissions: Option<u64>) -> (r: bool)
    ensures
        r == (permissions matches Some(p) && p & ADMINISTRATOR != 0),
{
    match permissions {
        Some(p) => p & ADMINISTRATOR != 0,
        None => false,
    }
}

// ---------------------------------------------------------------------------
// starring
// ---------------------------------------------------------------------------

/// What a server's starboard watches for.
pub struct Watch {
    pub starboard_channel: u64,
    pub min_stars: u64,
    pub emojis: Vec<String>,
}

/// A reaction is looked at when it comes from a server whose starboard
/// channel is set, is one of the configured emojis, and was not added in the
/// starboard channel itself.
pub open spec fn watched(store: Store, guild_id: Option<u64>, channel_id: u64, emoji: ReactionType) -> bool {
    match guild_id {
        Some(g) => {
            let cfg = store.guild_view(g);
            &&& cfg.starboard_channel matches Some(ch)
            &&& find_spec(emoji@, cfg.starboard_emojis) is Some
            &&& channel_id != ch
        },
        None => false,
    }
}

/// Whether a new reaction is one the starboard looks at, and if so what the
/// server's starboard watches for.
pub fn watch(store: &Store, guild_id: Option<u64>, channel_id: u64, emoji: &ReactionType) -> (r: Option<Watch>)
    ensures
        r is Some == watched(*store, guild_id, channel_id, *emoji),
        r matches Some(w) ==> {
            let cfg = store.guild_view(guild_id.unwrap());
            &&& cfg.starboard_channel == Some(w.starboard_channel)
            &&& cfg.min_stars == w.min_stars
            &&& texts(w.emojis@) == cfg.starboard_emojis
        },
{
    let g = match guild_id {
        Some(g) => g,
        None => {
            return None;
        },
    };
    let cfg = store.guild(g);
    let ch = match cfg.starboard_channel {
        Some(ch) => ch,
        None => {
            return None;
        },
    };
    if find(emoji, cfg.starboard_emojis.as_slice()).is_none() {
        return None;
    }
    if channel_id == ch {
        return None;
    }
    Some(Watch { starboard_channel: ch, min_stars: cfg.min_stars, emojis: cfg.starboard_emojis })
}

/// What to do about a message after counting its stars.
pub enum StarAction {
    /// Not enough stars, or already posted with no post to refresh.
    Ignore,
    /// First time over the threshold: post it (it is now marked starred).
    Post,
    /// Already on the starboard: refresh the star count of this post.
    Refresh(u64),
}

/// The action for a message with `stars` distinct reactors.
pub open spec fn star_action_spec(store: Store, guild_id: u64, message_id: u64, stars: u64, min_stars: u64) -> StarAction {
    let cfg = store.guild_view(guild_id);
    if stars < min_stars {
        StarAction::Ignore
    } else if cfg.starred_messages.contains(message_id) {
        if cfg.starboard_msg_ids.contains_key(message_id) {
            StarAction::Refresh(cfg.starboard_msg_ids[message_id])
        } else {
            StarAction::Ignore
        }
    } else {
        StarAction::Post
    }
}

/// Decides what to do once a message's stars are counted, marking it
/// starred when it is posted for the first time.
pub fn star_action(store: &mut Store, guild_id: u64, message_id: u64, stars: u64, min_stars: u64) -> (r: StarAction)
    ensures
        r == star_action_spec(*old(store), guild_id, message_id, stars, min_stars),
        r is Post ==> crate::storage::guild_updated(
            old(store).guilds@,
            final(store).guilds@,
            guild_id,
            GuildView {
                starred_messages: old(store).guild_view(guild_id).starred_messages.insert(message_id),
                ..old(store).guild_view(guild_id)
            },
        ),
        !(r is Post) ==> final(store).guilds@ == old(store).guilds@,
        final(store).avatars@ == old(store).avatars@,
        final(store).path@ == old(store).path@,
{
    if stars < min_stars {
        return StarAction::Ignore;
    }
    if store.is_starred(guild_id, message_id) {
        return match store.get_starboard_msg(guild_id, message_id) {
            Some(s) => StarAction::Refresh(s),
            None => StarAction::Ignore,
        };
    }
    store.mark_starred(guild_id, message_id);
    StarAction::Post
}

/// A message goes to the starboard at most once: once it was posted, no
/// later count posts it again.
pub proof fn posted_at_most_once(
    before: Store,
    after: Store,
    guild_id: u64,
    message_id: u64,
    stars: u64,
    min_stars: u64,
    later_stars: u64,
    later_min: u64,
)
    requires
        star_action_spec(before, guild_id, message_id, stars, min_stars) is Post,
        crate::storage::guild_updated(
            before.guilds@,
            after.guilds@,
            guild_id,
            GuildView {
                starred_messages: before.guild_view(guild_id).starred_messages.insert(message_id),
                ..before.guild_view(guild_id)
            },
        ),
    ensures
        !(star_action_spec(after, guild_id, message_id, later_stars, later_min) is Post),
{
    assert(after.guild_view(guild_id).starred_messages.contains(message_id));
}

/// Once the post of a starred message is recorded, a later count at or above
/// the threshold refreshes that post.
pub proof fn recorded_post_is_refreshed(
    before: Store,
    after: Store,
    guild_id: u64,
    message_id: u64,
    post_id: u64,
    stars: u64,
    min_stars: u64,
)
    requires
        before.guild_view(guild_id).starred_messages.contains(message_id),
        crate::storage::guild_updated(
            before.guilds@,
            after.guilds@,
            guild_id,
            GuildView {
                starboard_msg_ids: before.guild_view(guild_id).starboard_msg_ids.insert(message_id, post_id),
                ..before.guild_view(guild_id)
            },
        ),
        stars >= min_stars,
    ensures
        star_action_spec(after, guild_id, message_id, stars, min_stars) == StarAction::Refresh(post_id),
{
}

// ---------------------------------------------------------------------------
// counting stars
// ---------------------------------------------------------------------------

/// How many of these reactors are people rather than bots.
pub open spec fn human_count(users: Seq<(u64, bool)>) -> nat
    decreases users.len(),
{
    if users.len() == 0 {
        0
    } else {
        human_count(users.drop_last()) + if users.last().1 {
            0nat
        } else {
            1nat
        }
    }
}

/// The people among these reactors.
pub open spec fn humans(users: Seq<(u64, bool)>) -> Set<u64> {
    Set::new(|id: u64| exists|i: int| 0 <= i < users.len() && users[i].0 == id && !users[i].1)
}

/// Per configured emoji that people reacted with, in reaction order, the
/// emoji and how many people used it.
pub open spec fn tally_counts(
    reactions: Seq<(ReactionType, Vec<(u64, bool)>)>,
    emojis: Seq<Seq<char>>,
) -> Seq<(Seq<char>, nat)>
    decreases reactions.len(),
{
    if reactions.len() == 0 {
        Seq::empty()
    } else {
        let rest = tally_counts(reactions.drop_last(), emojis);
        let (r, users) = reactions.last();
        match find_spec(r@, emojis) {
            Some(e) => if human_count(users@) > 0 {
                rest.push((e, human_count(users@)))
            } else {
                rest
            },
            None => rest,
        }
    }
}

/// The people who reacted with any configured emoji.
pub open spec fn tally_people(
    reactions: Seq<(ReactionType, Vec<(u64, bool)>)>,
    emojis: Seq<Seq<char>>,
) -> Set<u64>
    decreases reactions.len(),
{
    if reactions.len() == 0 {
        Set::empty()
    } else {
        let rest = tally_people(reactions.drop_last(), emojis);
        let (r, users) = reactions.last();
        match find_spec(r@, emojis) {
            Some(e) => rest.union(humans(users@)),
            None => rest,
        }
    }
}

pub open spec fn counts_view(v: Seq<(String, u64)>) -> Seq<(Seq<char>, nat)> {
    v.map_values(|c: (String, u64)| (c.0@, c.1 as nat))
}

/// Counts the people behind every configured emoji on a message, given each
/// reaction with all the users who added it: the per-emoji counts, and the
/// number of distinct people (reacting twice counts once).
pub fn tally(reactions: &[(ReactionType, Vec<(u64, bool)>)], emojis: &[String]) -> (r: (Vec<(String, u64)>, u64))
    ensures
        counts_view(r.0@) == tally_counts(reactions@, texts(emojis@)),
        r.1 == tally_people(reactions@, texts(emojis@)).len(),
{
    let ghost list = texts(emojis@);
    let mut people: HashSet<u64> = HashSet::new();
    let mut counts: Vec<(String, u64)> = Vec::new();
    let mut i: usize = 0;
    while i < reactions.len()
        invariant
            i <= reactions@.len(),
            list == texts(emojis@),
            counts_view(counts@) == tally_counts(reactions@.take(i as int), list),
            people@ == tally_people(reactions@.take(i as int), list),
            people@.finite(),
        decreases reactions.len() - i,
    {
        let ghost prefix = reactions@.take(i + 1);
        assert(prefix.drop_last() =~= reactions@.take(i as int));
        assert(prefix.last() == reactions@[i as int]);
        let users = &reactions[i].1;
        match find(&reactions[i].0, emojis) {
            Some(e) => {
                let ghost before = people@;
                let mut count: u64 = 0;
                let mut j: usize = 0;
                while j < users.len()
                    invariant
                        j <= users@.len(),
                        count == human_count(users@.take(j as int)),
                        count <= j,
                        people@ == before.union(humans(users@.take(j as int))),
                        before.finite(),
                        people@.finite(),
                    decreases users.len() - j,
                {
                    let ghost t = users@.take(j + 1);
                    assert(t.drop_last() =~= users@.take(j as int));
                    if !users[j].1 {
                        people.insert(users[j].0);
                        count = count + 1;
                    }
                    assert(people@ =~= before.union(humans(t))) by {
                        assert forall|id: u64| humans(t).contains(id) <==> (humans(users@.take(j as int)).contains(id) || (id == users@[j as int].0 && !users@[j as int].1)) by {
                            if humans(t).contains(id) {
                                let k = choose|k: int| 0 <= k < t.len() && t[k].0 == id && !t[k].1;
                                if k < j {
                                    assert(users@.take(j as int)[k] == t[k]);
                                }
                            }
                            if humans(users@.take(j as int)).contains(id) {
                                let k = choose|k: int| 0 <= k < j && users@.take(j as int)[k].0 == id && !users@.take(j as int)[k].1;
                                assert(t[k] == users@.take(j as int)[k]);
                            }
                            if id == users@[j as int].0 && !users@[j as int].1 {
                                assert(t[j as int] == users@[j as int]);
                            }
                        }
                    }
                    j = j + 1;
                }
                assert(users@.take(users@.len() as int) =~= users@);
                if count > 0 {
                    counts.push((e.clone(), count));
                    assert(counts_view(counts@) =~= tally_counts(reactions@.take(i as int), list).push((e@, human_count(users@))));
                }
            },
            None => {},
        }
        assert(counts_view(counts@) =~= tally_counts(prefix, list));
        assert(people@ =~= tally_people(prefix, list));
        i = i + 1;
    }
    assert(reactions@.take(reactions@.len() as int) =~= reactions@);
    let total = people.len() as u64;
    (counts, total)
}

/// Reactors are fetched in pages of at most this many.
pub const PAGE_SIZE: usize = 100;

/// Where the next page of reactors starts: after the last user of a full
/// page; `None` when the page was the last one.
pub fn next_page(page: &[u64]) -> (r: Option<u64>)
    ensures
        page@.len() == PAGE_SIZE ==> r == Some(page@.last()),
        page@.len() != PAGE_SIZE ==> r is None,
{
    if page.len() == PAGE_SIZE {
        Some(page[page.len() - 1])
    } else {
        None
    }
}

} // verus!
