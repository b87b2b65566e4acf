//! The `/config` commands: what they change in the store and the panels they
//! answer with.
use vstd::prelude::*;

use crate::components::{
    action_row, button, container, parts, push_part, separator, text, Component,
    Face, Part, DANGER, PRIMARY,
};
use crate::emoji::{drawable, reaction_type, reaction_type_spec, MAX_EMOJIS};
use crate::handler::{ADD_ID, REMOVE_PREFIX};
use crate::storage::{GuildConfig, GuildView, Store};
use crate::text::{dec, join, lemma_join_push, push_dec, texts};

verus! {

/// Emoji buttons per row of the panel.
pub const BUTTONS_PER_ROW: usize = 5;

/// A plain one-line configuration answer.
pub open spec fn panel_spec(content: Seq<char>) -> Seq<Part> {
    seq![Part::Container(seq![Part::Text(content)])]
}

/// A plain one-line configuration answer.
pub fn panel(content: String) -> (r: Vec<Component>)
    ensures
        parts(r@) == panel_spec(content@),
{
    let mut items: Vec<Component> = Vec::new();
    assert(parts(items@) =~= Seq::<Part>::empty());
    push_part(&mut items, text(content));
    assert(parts(items@) =~= seq![Part::Text(content@)]);
    let mut r: Vec<Component> = Vec::new();
    assert(parts(r@) =~= Seq::<Part>::empty());
    push_part(&mut r, container(items));
    assert(parts(r@) =~= panel_spec(content@));
    r
}

/// The remove button of one emoji: it shows the emoji when it can be drawn,
/// else its text; it is disabled when it is the last emoji.
pub open spec fn remove_button_spec(emoji: Seq<char>, locked: bool) -> Part {
    Part::Button {
        custom_id: REMOVE_PREFIX@ + emoji,
        style: DANGER,
        disabled: locked,
        face: match reaction_type_spec(emoji) {
            Some(rt) => Face::Emoji(rt),
            None => Face::Label(emoji),
        },
    }
}

/// The remove buttons, `BUTTONS_PER_ROW` to a row.
pub open spec fn button_rows(emojis: Seq<Seq<char>>, locked: bool) -> Seq<Part>
    decreases emojis.len(),
{
    if emojis.len() == 0 {
        Seq::empty()
    } else {
        let n = if emojis.len() < BUTTONS_PER_ROW {
            emojis.len() as int
        } else {
            BUTTONS_PER_ROW as int
        };
        seq![
            Part::ActionRow(
                emojis.take(n).map_values(|e: Seq<char>| remove_button_spec(e, locked)),
            ),
        ] + button_rows(emojis.skip(n), locked)
    }
}

/// The header of the emoji panel.
pub open spec fn panel_header(emojis: Seq<Seq<char>>) -> Seq<char> {
    "**starboard emojis** ("@ + dec(emojis.len()) + "/"@ + dec(MAX_EMOJIS as nat) + ")\n"@ + join(
        emojis,
        " "@,
    ) + "\n-# click an emoji to remove it. a message needs enough distinct people reacting with these to reach the starboard."@
}

/// The emoji configuration panel: a header, a remove button per emoji (the
/// last emoji cannot be removed), and an add button (disabled when the list
/// is full).
pub open spec fn emoji_panel_spec(emojis: Seq<Seq<char>>) -> Seq<Part> {
    seq![
        Part::Container(
            seq![Part::Text(panel_header(emojis)), Part::Separator] + button_rows(
                emojis,
                emojis.len() <= 1,
            ) + seq![
                Part::ActionRow(
                    seq![
                        Part::Button {
                            custom_id: ADD_ID@,
                            style: PRIMARY,
                            disabled: emojis.len() >= MAX_EMOJIS,
                            face: Face::Label("add emoji"@),
                        },
                    ],
                ),
            ],
        ),
    ]
}

fn remove_button(emoji: &String, locked: bool) -> (r: Component)
    requires
        drawable(emoji@),
    ensures
        r@ == remove_button_spec(emoji@, locked),
{
    let mut id = String::from_str(REMOVE_PREFIX);
    id.append(emoji.as_str());
    match reaction_type(emoji.as_str()) {
        Some(rt) => button(id.as_str(), DANGER, None, Some(&rt), locked),
        None => button(id.as_str(), DANGER, Some(emoji.as_str()), None, locked),
    }
}

/// Builds the emoji configuration panel.
pub fn emoji_panel(emojis: &[String]) -> (r: Vec<Component>)
    requires
        forall|i: int| 0 <= i < emojis@.len() ==> drawable(#[trigger] emojis@[i]@),
    ensures
        parts(r@) == emoji_panel_spec(texts(emojis@)),
{
    let ghost list = texts(emojis@);
    let n = emojis.len();
    let mut header = String::from_str("**starboard emojis** (");
    push_dec(&mut header, n as u64);
    header.append("/");
    push_dec(&mut header, MAX_EMOJIS as u64);
    header.append(")\n");
    let ghost before_join = header@;
    let mut k: usize = 0;
    while k < n
        invariant
            k <= n,
            n == emojis@.len(),
            list == texts(emojis@),
            header@ == before_join + join(list.take(k as int), " "@),
        decreases n - k,
    {
        if k > 0 {
            header.append(" ");
        }
        header.append(emojis[k].as_str());
        proof {
            lemma_join_push(list.take(k as int), " "@, list[k as int]);
            assert(list.take(k + 1) =~= list.take(k as int).push(list[k as int]));
        }
        k = k + 1;
    }
    assert(list.take(n as int) =~= list);
    header.append(
        "\n-# click an emoji to remove it. a message needs enough distinct people reacting with these to reach the starboard.",
    );
    assert(header@ =~= panel_header(list));

    let mut items: Vec<Component> = Vec::new();
    assert(parts(items@) =~= Seq::<Part>::empty());
    push_part(&mut items, text(header));
    push_part(&mut items, separator());
    let ghost head = parts(items@);
    assert(head =~= seq![Part::Text(panel_header(list)), Part::Separator]);

    // the last emoji cannot be removed, or nothing could star a message
    let locked = n <= 1;
    let mut i: usize = 0;
    assert(list.skip(0) =~= list);
    while i < n
        invariant
            i <= n,
            n == emojis@.len(),
            list == texts(emojis@),
            parts(items@) + button_rows(list.skip(i as int), locked) == head + button_rows(list, locked),
            forall|k: int| 0 <= k < emojis@.len() ==> drawable(#[trigger] emojis@[k]@),
        decreases n - i,
    {
        let m = if n - i < BUTTONS_PER_ROW {
            n - i
        } else {
            BUTTONS_PER_ROW
        };
        let ghost rest = list.skip(i as int);
        let ghost row = rest.take(m as int).map_values(|e: Seq<char>| remove_button_spec(e, locked));
        let mut buttons: Vec<Component> = Vec::new();
        let mut j: usize = 0;
        assert(parts(buttons@) =~= Seq::<Part>::empty());
        while j < m
            invariant
                j <= m,
                i + m <= n,
                n == emojis@.len(),
                list == texts(emojis@),
                rest == list.skip(i as int),
                row == rest.take(m as int).map_values(|e: Seq<char>| remove_button_spec(e, locked)),
                parts(buttons@) == row.take(j as int),
                forall|k: int| 0 <= k < emojis@.len() ==> drawable(#[trigger] emojis@[k]@),
            decreases m - j,
        {
            push_part(&mut buttons, remove_button(&emojis[i + j], locked));
            assert(row[j as int] == remove_button_spec(list[i + j], locked));
            assert(row.take(j + 1) =~= row.take(j as int).push(row[j as int]));
            j = j + 1;
        }
        assert(row.take(m as int) =~= row);
        let ghost before = parts(items@);
        push_part(&mut items, action_row(buttons));
        proof {
            assert(rest.skip(m as int) =~= list.skip(i + m));
            assert(button_rows(rest, locked) == seq![Part::ActionRow(row)] + button_rows(rest.skip(m as int), locked));
            assert(parts(items@) =~= before.push(Part::ActionRow(row)));
            assert(parts(items@) + button_rows(list.skip(i + m), locked) =~= before + button_rows(rest, locked));
        }
        i = i + m;
    }
    assert(list.skip(n as int) =~= Seq::<Seq<char>>::empty());
    assert(parts(items@) =~= head + button_rows(list, locked));

    let mut add: Vec<Component> = Vec::new();
    assert(parts(add@) =~= Seq::<Part>::empty());
    push_part(&mut add, button(ADD_ID, PRIMARY, Some("add emoji"), None, n >= MAX_EMOJIS));
    push_part(&mut items, action_row(add));
    let mut r: Vec<Component> = Vec::new();
    assert(parts(r@) =~= Seq::<Part>::empty());
    push_part(&mut r, container(items));
    assert(parts(r@) =~= emoji_panel_spec(list));
    r
}

/// The channel a configuration shows: a channel mention, or that none is
/// set.
pub open spec fn channel_text(channel: Option<u64>) -> Seq<char> {
    match channel {
        Some(id) => "<#"@ + dec(id as nat) + ">"@,
        None => "*not set*"@,
    }
}

/// The answer of `/config show`.
pub open spec fn config_panel_spec(cfg: GuildView) -> Seq<Part> {
    seq![
        Part::Container(
            seq![
                Part::Text("**starboard configuration**"@),
                Part::Separator,
                Part::Text(
                    "channel: "@ + channel_text(cfg.starboard_channel) + "\nmin reactions: "@ + dec(
                        cfg.min_stars as nat,
                    ) + "\nemojis: "@ + join(cfg.starboard_emojis, " "@),
                ),
            ],
        ),
    ]
}

/// Shows a server's starboard configuration.
pub fn config_panel(cfg: &GuildConfig) -> (r: Vec<Component>)
    ensures
        parts(r@) == config_panel_spec(cfg@),
{
    let mut body = String::from_str("channel: ");
    match cfg.starboard_channel {
        Some(id) => {
            body.append("<#");
            push_dec(&mut body, id);
            body.append(">");
        },
        None => {
            body.append("*not set*");
        },
    }
    body.append("\nmin reactions: ");
    push_dec(&mut body, cfg.min_stars);
    body.append("\nemojis: ");
    let ghost list = texts(cfg.starboard_emojis@);
    let ghost start = body@;
    let mut k: usize = 0;
    while k < cfg.starboard_emojis.len()
        invariant
            k <= cfg.starboard_emojis@.len(),
            list == texts(cfg.starboard_emojis@),
            body@ == start + join(list.take(k as int), " "@),
        decreases cfg.starboard_emojis.len() - k,
    {
        if k > 0 {
            body.append(" ");
        }
        body.append(cfg.starboard_emojis[k].as_str());
        proof {
            lemma_join_push(list.take(k as int), " "@, list[k as int]);
            assert(list.take(k + 1) =~= list.take(k as int).push(list[k as int]));
        }
        k = k + 1;
    }
    assert(list.take(list.len() as int) =~= list);
    assert(start =~= "channel: "@ + channel_text(cfg.starboard_channel) + "\nmin reactions: "@ + dec(
        cfg.min_stars as nat,
    ) + "\nemojis: "@);
    let ghost line = body@;
    let mut items: Vec<Component> = Vec::new();
    assert(parts(items@) =~= Seq::<Part>::empty());
    push_part(&mut items, text(String::from_str("**starboard configuration**")));
    push_part(&mut items, separator());
    push_part(&mut items, text(body));
    assert(parts(items@) =~= seq![
        Part::Text("**starboard configuration**"@),
        Part::Separator,
        Part::Text(line),
    ]);
    let mut r: Vec<Component> = Vec::new();
    assert(parts(r@) =~= Seq::<Part>::empty());
    push_part(&mut r, container(items));
    assert(line == "channel: "@ + channel_text(cfg@.starboard_channel) + "\nmin reactions: "@ + dec(
        cfg@.min_stars as nat,
    ) + "\nemojis: "@ + join(cfg@.starboard_emojis, " "@));
    assert(parts(r@) =~= config_panel_spec(cfg@));
    r
}

/// `/config channel`: sets the starboard channel and answers with what was
/// set.
pub fn set_channel(store: &mut Store, guild_id: u64, channel_id: u64) -> (r: Vec<Component>)
    ensures
        crate::storage::guild_updated(
            old(store).guilds@,
            final(store).guilds@,
            guild_id,
            GuildView { starboard_channel: Some(channel_id), ..old(store).guild_view(guild_id) },
        ),
        final(store).avatars@ == old(store).avatars@,
        final(store).path@ == old(store).path@,
        parts(r@) == panel_spec("starboard channel set to <#"@ + dec(channel_id as nat) + ">"@),
{
    let cfg = store.guild_mut(guild_id);
    cfg.starboard_channel = Some(channel_id);
    let mut content = String::from_str("starboard channel set to <#");
    push_dec(&mut content, channel_id);
    content.append(">");
    panel(content)
}

/// `/config stars`: sets the reaction threshold, which must be at least 1;
/// returns whether anything changed, and the answer.
pub fn set_stars(store: &mut Store, guild_id: u64, count: u64) -> (r: (bool, Vec<Component>))
    ensures
        r.0 == (count > 0),
        count == 0 ==> final(store).guilds@ == old(store).guilds@ && parts(r.1@) == panel_spec(
            "minimum reactions must be at least 1"@,
        ),
        count > 0 ==> crate::storage::guild_updated(
            old(store).guilds@,
            final(store).guilds@,
            guild_id,
            GuildView { min_stars: count, ..old(store).guild_view(guild_id) },
        ) && parts(r.1@) == panel_spec("minimum reactions set to "@ + dec(count as nat)),
        final(store).avatars@ == old(store).avatars@,
        final(store).path@ == old(store).path@,
{
    if count == 0 {
        return (false, panel(String::from_str("minimum reactions must be at least 1")));
    }
    let cfg = store.guild_mut(guild_id);
    cfg.min_stars = count;
    let mut content = String::from_str("minimum reactions set to ");
    push_dec(&mut content, count);
    (true, panel(content))
}

} // verus!
