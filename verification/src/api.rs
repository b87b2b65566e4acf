//! The bodies of the raw Discord API requests that post and edit a
//! components-v2 message.
use vstd::prelude::*;

use crate::components::{json_list, list_to_json, parts, Component, Part, IS_COMPONENTS_V2};
use crate::components::{json_str, write_str};
use crate::starboard::pairs_view;
use crate::text::{chars_of, dec, parse_u64, push_dec, read_u64, texts};

verus! {

/// A file uploaded alongside a message.
pub struct Upload {
    pub name: String,
    pub bytes: Vec<u8>,
}

/// An entry of a message's attachment list: `{"id":..,"filename":..}`.
pub open spec fn attachment_json(entry: (u64, Seq<char>)) -> Seq<char> {
    "{\"id\":"@ + dec(entry.0 as nat) + ",\"filename\":"@ + json_str(entry.1) + "}"@
}

/// Attachment entries separated by commas.
pub open spec fn attachment_items(entries: Seq<(u64, Seq<char>)>) -> Seq<char>
    decreases entries.len(),
{
    if entries.len() == 0 {
        Seq::empty()
    } else if entries.len() == 1 {
        attachment_json(entries[0])
    } else {
        attachment_items(entries.drop_last()) + ","@ + attachment_json(entries.last())
    }
}

/// The body of a message post or edit: laid out with components v2, with
/// the given attachment list. An edit declares the whole attachment list,
/// so whatever it leaves out is dropped from the message.
pub open spec fn message_payload_spec(components: Seq<Part>, entries: Seq<(u64, Seq<char>)>) -> Seq<char> {
    "{\"flags\":"@ + dec(IS_COMPONENTS_V2 as nat) + ",\"components\":"@ + json_list(components)
        + ",\"attachments\":["@ + attachment_items(entries) + "]}"@
}

/// The attachment list of a post: each upload by its position.
pub open spec fn upload_entries(names: Seq<Seq<char>>) -> Seq<(u64, Seq<char>)> {
    Seq::new(names.len(), |i: int| (i as u64, names[i]))
}

pub open spec fn entries_view(v: Seq<(u64, String)>) -> Seq<(u64, Seq<char>)> {
    v.map_values(|e: (u64, String)| (e.0, e.1@))
}

fn write_entries(out: &mut String, entries: &[(u64, String)])
    ensures
        final(out)@ == old(out)@ + attachment_items(entries_view(entries@)),
{
    let ghost start = out@;
    let ghost ev = entries_view(entries@);
    let mut i: usize = 0;
    while i < entries.len()
        invariant
            i <= entries@.len(),
            ev == entries_view(entries@),
            out@ == start + attachment_items(ev.take(i as int)),
        decreases entries.len() - i,
    {
        if i > 0 {
            out.append(",");
        }
        out.append("{\"id\":");
        push_dec(out, entries[i].0);
        out.append(",\"filename\":");
        write_str(out, entries[i].1.as_str());
        out.append("}");
        assert(ev.take(i + 1).drop_last() =~= ev.take(i as int));
        assert(ev[i as int] == (entries@[i as int].0, entries@[i as int].1@));
        assert(out@ =~= start + attachment_items(ev.take(i + 1)));
        i = i + 1;
    }
    assert(ev.take(entries@.len() as int) =~= ev);
}

/// The body of a message edit that keeps the listed attachments,
/// `(attachment id, file name)`, of the message being edited.
pub fn edit_payload(components: &Vec<Component>, keep: &[(u64, String)]) -> (r: String)
    ensures
        r@ == message_payload_spec(parts(components@), entries_view(keep@)),
{
    let mut out = String::from_str("{\"flags\":");
    push_dec(&mut out, IS_COMPONENTS_V2);
    out.append(",\"components\":");
    let list = list_to_json(components);
    out.append(list.as_str());
    out.append(",\"attachments\":[");
    write_entries(&mut out, keep);
    out.append("]}");
    out
}

/// The body of a message post with these uploads.
pub fn send_payload(components: &Vec<Component>, files: &[Upload]) -> (r: String)
    ensures
        r@ == message_payload_spec(
            parts(components@),
            upload_entries(files@.map_values(|f: Upload| f.name@)),
        ),
{
    let ghost names = files@.map_values(|f: Upload| f.name@);
    let mut entries: Vec<(u64, String)> = Vec::new();
    let mut i: usize = 0;
    while i < files.len()
        invariant
            i <= files@.len(),
            names == files@.map_values(|f: Upload| f.name@),
            entries@.len() == i,
            entries_view(entries@) == upload_entries(names).take(i as int),
        decreases files.len() - i,
    {
        let ghost before = entries@;
        entries.push((i as u64, files[i].name.clone()));
        assert(names[i as int] == files@[i as int].name@);
        assert(upload_entries(names)[i as int] == (i as u64, names[i as int]));
        assert forall|k: int| 0 <= k < i + 1 implies entries_view(entries@)[k] == upload_entries(names).take(i + 1)[k] by {
            if k < i {
                assert(entries@[k] == before[k]);
                assert(entries_view(before)[k] == upload_entries(names).take(i as int)[k]);
            }
        }
        assert(entries_view(entries@) =~= upload_entries(names).take(i + 1));
        i = i + 1;
    }
    assert(upload_entries(names).take(files@.len() as int) =~= upload_entries(names));
    edit_payload(components, entries.as_slice())
}

/// How a post points at a file attached to it.
pub open spec fn attachment_ref(name: Seq<char>) -> Seq<char> {
    "attachment://"@ + name
}

/// Upload names paired with the urls a post uses for them.
pub open spec fn media_spec(names: Seq<Seq<char>>) -> Seq<(Seq<char>, Seq<char>)> {
    names.map_values(|n: Seq<char>| (n, attachment_ref(n)))
}

/// Pairs every file name with the url a post uses for it.
pub fn media_for(names: &[String]) -> (r: Vec<(String, String)>)
    ensures
        pairs_view(r@) == media_spec(texts(names@)),
{
    let mut out: Vec<(String, String)> = Vec::new();
    let mut i: usize = 0;
    while i < names.len()
        invariant
            i <= names@.len(),
            out@.len() == i,
            pairs_view(out@) == media_spec(texts(names@)).take(
                i as int,
            ),
        decreases names.len() - i,
    {
        let mut url = String::from_str("attachment://");
        url.append(names[i].as_str());
        let ghost before = out@;
        out.push((names[i].clone(), url));
        assert forall|k: int| 0 <= k < i + 1 implies pairs_view(out@)[k] == media_spec(texts(names@)).take(i + 1)[k] by {
            if k < i {
                assert(out@[k] == before[k]);
                assert(pairs_view(before)[k] == media_spec(texts(names@)).take(i as int)[k]);
            }
        }
        assert(texts(names@)[i as int] == names@[i as int]@);
        assert(media_spec(texts(names@))[i as int] == (names@[i as int]@, attachment_ref(names@[i as int]@)));
        assert(pairs_view(out@) =~= media_spec(
            texts(names@),
        ).take(i + 1));
        i = i + 1;
    }
    assert(media_spec(texts(names@)).take(names@.len() as int) =~= media_spec(texts(names@)));
    out
}

/// The endpoint of a channel's messages, where posts are made.
pub open spec fn messages_url_spec(channel_id: u64) -> Seq<char> {
    crate::avatar::API@ + "/channels/"@ + dec(channel_id as nat) + "/messages"@
}

/// The endpoint where a message is posted in a channel.
pub fn messages_url(channel_id: u64) -> (r: String)
    ensures
        r@ == messages_url_spec(channel_id),
{
    let mut out = String::from_str(crate::avatar::API);
    out.append("/channels/");
    push_dec(&mut out, channel_id);
    out.append("/messages");
    out
}

/// The endpoint of one message, where it is edited.
pub fn message_url(channel_id: u64, message_id: u64) -> (r: String)
    ensures
        r@ == messages_url_spec(channel_id) + "/"@ + dec(message_id as nat),
{
    let mut out = messages_url(channel_id);
    out.append("/");
    push_dec(&mut out, message_id);
    out
}

/// Reads the id of a posted message, as Discord sends it (a decimal string).
pub fn message_id_of(id: &str) -> (r: Option<u64>)
    ensures
        r == parse_u64(id@),
{
    let v = chars_of(id);
    read_u64(v.as_slice())
}

/// The `Authorization` header value of a bot.
pub fn bot_auth(token: &str) -> (r: String)
    ensures
        r@ == "Bot "@ + token@,
{
    let mut out = String::from_str("Bot ");
    out.append(token);
    out
}

} // verus!
