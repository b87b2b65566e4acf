//! Turning a starred message into a starboard post.
use vstd::prelude::*;

use crate::components::{
    container, extend_parts, file, gallery, parts, push_part, section, separator, text, thumbnail,
    Component, Part,
};
use crate::model::{
    Attachment, Embed, EmbedField, Message, Snapshot, Sticker, StickerFormat, User,
    IS_VOICE_MESSAGE,
};
use crate::text::{
    ascii_lower, char_ascii_lower, char_is_space, chars_of, dec, dec_signed, first_at, is_space,
    push_char, push_chars, push_dec, push_dec_signed, push_dec_wide, same_chars, same_text, string_of, sub_vec,
    join, lemma_dec_digits, lemma_join_push, texts, trim,
};

verus! {

/// How much of the original message is shown before it is cut off.
pub const MAX_CONTENT: usize = 1500;

/// How much of a replied-to message fits on the single reply line.
pub const MAX_REPLY: usize = 120;

/// Embeds carried over from the original message, capped to stay under the
/// component limit.
pub const MAX_EMBEDS: usize = 4;

/// Discord's per-file upload limit; anything bigger is linked instead of
/// re-hosted, since re-uploading it would fail the whole post.
pub const MAX_UPLOAD: usize = 20 * 1024 * 1024;

// ---------------------------------------------------------------------------
// text helpers
// ---------------------------------------------------------------------------

/// `text` cut to at most `max` characters, with an ellipsis when something
/// was cut; `None` for empty text.
pub open spec fn excerpt_spec(text: Seq<char>, max: nat) -> Option<Seq<char>> {
    if text.len() == 0 {
        None
    } else if text.len() > max {
        Some(text.take(max as int) + "…"@)
    } else {
        Some(text)
    }
}

/// Cuts text to at most `max` characters; `None` when it is empty.
pub fn excerpt(text: &str, max: usize) -> (r: Option<String>)
    ensures
        crate::emoji::opt_view(r) == excerpt_spec(text@, max as nat),
{
    let v = chars_of(text);
    if v.len() == 0 {
        return None;
    }
    if v.len() > max {
        let mut out = string_of(sub_vec(v.as_slice(), 0, max).as_slice());
        out.append("…");
        Some(out)
    } else {
        Some(string_of(v.as_slice()))
    }
}

/// The name shown for a user: their display name if set, else their user
/// name.
pub open spec fn display_name_spec(user: User) -> Seq<char> {
    match user.global_name {
        Some(g) => g@,
        None => user.name@,
    }
}

/// Returns the name shown for a user.
pub fn display_name(user: &User) -> (r: String)
    ensures
        r@ == display_name_spec(*user),
{
    match &user.global_name {
        Some(g) => g.clone(),
        None => user.name.clone(),
    }
}

/// A link to a message.
pub open spec fn msg_link_spec(message: Message) -> Seq<char> {
    "https://discord.com/channels/"@ + dec(
        match message.guild_id {
            Some(g) => g as nat,
            None => 0,
        },
    ) + "/"@ + dec(message.channel_id as nat) + "/"@ + dec(message.id as nat)
}

/// Builds a link to a message.
pub fn msg_link(message: &Message) -> (r: String)
    ensures
        r@ == msg_link_spec(*message),
{
    let mut out = String::from_str("https://discord.com/channels/");
    push_dec(
        &mut out,
        match message.guild_id {
            Some(g) => g,
            None => 0,
        },
    );
    out.append("/");
    push_dec(&mut out, message.channel_id);
    out.append("/");
    push_dec(&mut out, message.id);
    out
}

pub open spec fn is_voice_spec(message: Message) -> bool {
    match message.flags {
        Some(f) => f & IS_VOICE_MESSAGE != 0,
        None => false,
    }
}

/// Whether the message is a voice note.
pub fn is_voice(message: &Message) -> (r: bool)
    ensures
        r == is_voice_spec(*message),
{
    match message.flags {
        Some(f) => f & IS_VOICE_MESSAGE != 0,
        None => false,
    }
}

/// The tally of one emoji: `⭐ 5`.
pub open spec fn count_part(c: (String, u64)) -> Seq<char> {
    c.0@ + " "@ + dec(c.1 as nat)
}

/// Each reacted emoji with its count, then the number of distinct people when
/// more than one emoji was used, all separated by spaces.
pub open spec fn star_summary_spec(counts: Seq<(String, u64)>, total: u64) -> Seq<char> {
    let parts = counts.map_values(|c: (String, u64)| count_part(c));
    if counts.len() > 1 {
        join(parts.push("· **"@ + dec(total as nat) + "**"@), " "@)
    } else {
        join(parts, " "@)
    }
}

/// Renders each reacted emoji with its count, plus the number of distinct
/// reactors when there is more than one emoji.
pub fn star_summary(counts: &[(String, u64)], total: u64) -> (r: String)
    ensures
        r@ == star_summary_spec(counts@, total),
{
    let ghost parts = counts@.map_values(|c: (String, u64)| count_part(c));
    let mut out = String::new();
    let mut i: usize = 0;
    while i < counts.len()
        invariant
            i <= counts@.len(),
            parts == counts@.map_values(|c: (String, u64)| count_part(c)),
            out@ == join(parts.take(i as int), " "@),
        decreases counts.len() - i,
    {
        let ghost before = out@;
        if i > 0 {
            out.append(" ");
        }
        out.append(counts[i].0.as_str());
        out.append(" ");
        push_dec(&mut out, counts[i].1);
        proof {
            lemma_join_push(parts.take(i as int), " "@, parts[i as int]);
            assert(parts.take(i + 1) =~= parts.take(i as int).push(parts[i as int]));
            assert(out@ =~= join(parts.take(i + 1), " "@));
        }
        i = i + 1;
    }
    assert(parts.take(counts@.len() as int) =~= parts);
    if counts.len() > 1 {
        let ghost before = out@;
        out.append(" · **");
        push_dec(&mut out, total);
        out.append("**");
        proof {
            lemma_join_push(parts, " "@, "· **"@ + dec(total as nat) + "**"@);
            assert(" · **"@ =~= " "@ + "· **"@) by {
                reveal_strlit(" · **");
                reveal_strlit(" ");
                reveal_strlit("· **");
            }
            assert(out@ =~= join(parts.push("· **"@ + dec(total as nat) + "**"@), " "@));
        }
    }
    out
}


// ---------------------------------------------------------------------------
// media links
// ---------------------------------------------------------------------------

pub open spec fn starts_with(s: Seq<char>, prefix: Seq<char>) -> bool {
    s.len() >= prefix.len() && s.take(prefix.len() as int) == prefix
}

/// `s` ends with `ext` when its ASCII letters are lower-cased.
///
/// The extensions checked against are ASCII and contain no `k` or `i` at
/// their end, and Unicode lower-casing maps no other character to an ASCII
/// letter (only the Kelvin sign becomes `k`, and the dotted capital I becomes
/// `i` followed by a combining dot), so this agrees with lower-casing the
/// whole text before comparing.
pub open spec fn ends_with_lower(s: Seq<char>, ext: Seq<char>) -> bool {
    &&& s.len() >= ext.len()
    &&& forall|i: int| 0 <= i < ext.len() ==> ascii_lower(#[trigger] s[s.len() - ext.len() + i]) == ext[i]
}

/// There is a second word: white space followed later by something that is
/// not white space. (Only asked of text that starts with a letter.)
pub open spec fn has_second_word(s: Seq<char>) -> bool {
    exists|b: int, c: int| 0 <= b < c < s.len() && is_space(#[trigger] s[b]) && !is_space(#[trigger] s[c])
}

/// `i` is the first `?` or `#` in `s`.
pub open spec fn first_query(s: Seq<char>, i: int) -> bool {
    &&& 0 <= i < s.len()
    &&& (s[i] == '?' || s[i] == '#')
    &&& forall|j: int| 0 <= j < i ==> s[j] != '?' && s[j] != '#'
}

/// A link without its query and fragment.
pub open spec fn link_path(s: Seq<char>) -> Seq<char> {
    if exists|i: int| first_query(s, i) {
        s.take(choose|i: int| first_query(s, i))
    } else {
        s
    }
}

pub open spec fn is_media_path(path: Seq<char>) -> bool {
    ||| ends_with_lower(path, ".gif"@)
    ||| ends_with_lower(path, ".png"@)
    ||| ends_with_lower(path, ".jpg"@)
    ||| ends_with_lower(path, ".jpeg"@)
    ||| ends_with_lower(path, ".webp"@)
    ||| ends_with_lower(path, ".mp4"@)
    ||| ends_with_lower(path, ".webm"@)
}

/// Text that is a single direct link to an image or video.
pub open spec fn lone_media_url_spec(content: Seq<char>) -> Option<Seq<char>> {
    if starts_with(content, "https://"@) && !has_second_word(content) && is_media_path(
        link_path(content),
    ) {
        Some(content)
    } else {
        None
    }
}

fn ends_with_lower_exec(s: &[char], ext: &str) -> (r: bool)
    ensures
        r == ends_with_lower(s@, ext@),
{
    let e = chars_of(ext);
    if s.len() < e.len() {
        return false;
    }
    let n = s.len();
    let base = n - e.len();
    let mut i: usize = 0;
    while i < e.len()
        invariant
            i <= e@.len(),
            e@ == ext@,
            base == s@.len() - e@.len(),
            n == s@.len(),
            e@.len() <= s@.len(),
            forall|j: int| 0 <= j < i ==> ascii_lower(#[trigger] s@[s@.len() - e@.len() + j]) == e@[j],
        decreases e.len() - i,
    {
        assert(base + i < s@.len());
        if char_ascii_lower(s[base + i]) != e[i] {
            return false;
        }
        i = i + 1;
    }
    true
}

fn lone_media_url_chars(v: &[char]) -> (r: bool)
    ensures
        r == lone_media_url_spec(v@) is Some,
{
    let prefix = chars_of("https://");
    if v.len() < prefix.len() {
        return false;
    }
    if !same_chars(sub_vec(v, 0, prefix.len()).as_slice(), prefix.as_slice()) {
        return false;
    }
    // a second word
    let mut seen_space = false;
    let mut i: usize = 0;
    while i < v.len()
        invariant
            i <= v@.len(),
            seen_space == exists|b: int| 0 <= b < i && is_space(#[trigger] v@[b]),
            !exists|b: int, c: int| 0 <= b < c < i && is_space(#[trigger] v@[b]) && !is_space(#[trigger] v@[c]),
        decreases v.len() - i,
    {
        let sp = char_is_space(v[i]);
        if !sp && seen_space {
            assert(has_second_word(v@)) by {
                let b = choose|b: int| 0 <= b < i && is_space(#[trigger] v@[b]);
                assert(is_space(v@[b]) && !is_space(v@[i as int]));
            }
            return false;
        }
        if sp {
            seen_space = true;
        }
        i = i + 1;
    }
    // the path ends at the first `?` or `#`
    let mut end: usize = 0;
    while end < v.len() && v[end] != '?' && v[end] != '#'
        invariant
            end <= v@.len(),
            forall|j: int| 0 <= j < end ==> v@[j] != '?' && v@[j] != '#',
        decreases v.len() - end,
    {
        end = end + 1;
    }
    let path = sub_vec(v, 0, end);
    proof {
        if end < v@.len() {
            assert(first_query(v@, end as int));
            let c = choose|c: int| first_query(v@, c);
            assert(c == end);
        } else {
            assert(!exists|c: int| first_query(v@, c));
            assert(v@.take(end as int) =~= v@);
        }
        assert(path@ == link_path(v@));
    }
    let p = path.as_slice();
    ends_with_lower_exec(p, ".gif") || ends_with_lower_exec(p, ".png") || ends_with_lower_exec(p, ".jpg")
        || ends_with_lower_exec(p, ".jpeg") || ends_with_lower_exec(p, ".webp")
        || ends_with_lower_exec(p, ".mp4") || ends_with_lower_exec(p, ".webm")
}

/// A message whose content is a lone direct media link is shown as media
/// instead of as text; returns that link.
pub fn lone_media_url(content: &str) -> (r: Option<String>)
    ensures
        crate::emoji::opt_view(r) == lone_media_url_spec(content@),
{
    let v = chars_of(content);
    if lone_media_url_chars(v.as_slice()) {
        Some(string_of(v.as_slice()))
    } else {
        None
    }
}

pub open spec fn embed_url_is(e: Embed, url: Seq<char>) -> bool {
    match e.url {
        Some(u) => u@ == url,
        None => false,
    }
}

/// Whether some embed points at exactly this link.
pub open spec fn embed_has_url(embeds: Seq<Embed>, url: Seq<char>) -> bool {
    exists|i: int| 0 <= i < embeds.len() && embed_url_is(#[trigger] embeds[i], url)
}

/// The message text shown in the post: none when it is empty, a lone media
/// link, or the link an embed already renders; else cut to `MAX_CONTENT`.
pub open spec fn content_text_spec(message: Message) -> Option<Seq<char>> {
    let c = trim(message.content@);
    if c.len() == 0 || lone_media_url_spec(c) is Some {
        None
    } else if embed_has_url(message.embeds@, c) {
        None
    } else {
        excerpt_spec(c, MAX_CONTENT as nat)
    }
}

/// The message body, dropped when it is only the link an embed already
/// renders.
pub fn content_text(message: &Message) -> (r: Option<String>)
    ensures
        crate::emoji::opt_view(r) == content_text_spec(*message),
{
    let all = chars_of(message.content.as_str());
    let c = crate::text::trimmed(all.as_slice());
    if c.len() == 0 || lone_media_url_chars(c.as_slice()) {
        return None;
    }
    let cs = string_of(c.as_slice());
    let mut i: usize = 0;
    while i < message.embeds.len()
        invariant
            i <= message.embeds@.len(),
            cs@ == trim(message.content@),
            forall|j: int|
                0 <= j < i ==> !embed_url_is(#[trigger] message.embeds@[j], cs@),
        decreases message.embeds.len() - i,
    {
        match &message.embeds[i].url {
            Some(u) => {
                if same_text(u.as_str(), cs.as_str()) {
                    return None;
                }
            },
            None => {},
        }
        i = i + 1;
    }
    excerpt(cs.as_str(), MAX_CONTENT)
}

// ---------------------------------------------------------------------------
// stickers
// ---------------------------------------------------------------------------

/// Where a sticker's image lives: gif stickers on media.discordapp.net, png
/// and apng ones on the CDN; lottie stickers are no image.
pub open spec fn sticker_url_spec(sticker: Sticker) -> Option<Seq<char>> {
    match sticker.format {
        StickerFormat::Gif => Some(
            "https://media.discordapp.net/stickers/"@ + dec(sticker.id as nat) + ".gif"@,
        ),
        StickerFormat::Png => Some(
            "https://cdn.discordapp.com/stickers/"@ + dec(sticker.id as nat) + ".png"@,
        ),
        StickerFormat::Apng => Some(
            "https://cdn.discordapp.com/stickers/"@ + dec(sticker.id as nat) + ".png"@,
        ),
        _ => None,
    }
}

pub open spec fn sticker_urls_spec(stickers: Seq<Sticker>) -> Seq<Seq<char>>
    decreases stickers.len(),
{
    if stickers.len() == 0 {
        Seq::empty()
    } else {
        let rest = sticker_urls_spec(stickers.drop_last());
        match sticker_url_spec(stickers.last()) {
            Some(u) => rest.push(u),
            None => rest,
        }
    }
}

/// The image urls of a message's stickers, skipping those that are not
/// images.
pub fn sticker_urls(stickers: &[Sticker]) -> (r: Vec<String>)
    ensures
        texts(r@) == sticker_urls_spec(stickers@),
{
    let mut out: Vec<String> = Vec::new();
    let mut i: usize = 0;
    while i < stickers.len()
        invariant
            i <= stickers@.len(),
            texts(out@) == sticker_urls_spec(stickers@.take(i as int)),
        decreases stickers.len() - i,
    {
        let st = &stickers[i];
        let ghost before = out@;
        assert(stickers@.take(i + 1).drop_last() =~= stickers@.take(i as int));
        match st.format {
            StickerFormat::Gif => {
                let mut u = String::from_str("https://media.discordapp.net/stickers/");
                push_dec(&mut u, st.id);
                u.append(".gif");
                out.push(u);
            },
            StickerFormat::Png | StickerFormat::Apng => {
                let mut u = String::from_str("https://cdn.discordapp.com/stickers/");
                push_dec(&mut u, st.id);
                u.append(".png");
                out.push(u);
            },
            _ => {},
        }
        assert(texts(out@) =~= sticker_urls_spec(stickers@.take(i + 1)));
        i = i + 1;
    }
    assert(stickers@.take(stickers@.len() as int) =~= stickers@);
    out
}

// ---------------------------------------------------------------------------
// the reply line
// ---------------------------------------------------------------------------

/// Line breaks turned into spaces.
pub open spec fn one_line(s: Seq<char>) -> Seq<char> {
    s.map_values(
        |c: char|
            if c == '\n' {
                ' '
            } else {
                c
            },
    )
}

fn one_line_exec(s: &str) -> (r: String)
    ensures
        r@ == one_line(s@),
{
    let v = chars_of(s);
    let mut out = String::new();
    let mut i: usize = 0;
    while i < v.len()
        invariant
            i <= v@.len(),
            out@ == one_line(v@.take(i as int)),
        decreases v.len() - i,
    {
        push_char(
            &mut out,
            if v[i] == '\n' {
                ' '
            } else {
                v[i]
            },
        );
        assert(one_line(v@.take(i + 1)) =~= one_line(v@.take(i as int)).push(
            if v@[i as int] == '\n' {
                ' '
            } else {
                v@[i as int]
            },
        ));
        i = i + 1;
    }
    assert(v@.take(v@.len() as int) =~= v@);
    out
}

/// What the reply line quotes of the replied-to message.
pub open spec fn reply_content(replied: Message) -> Seq<char> {
    if replied.content@.len() > 0 {
        excerpt_spec(replied.content@, MAX_REPLY as nat).unwrap()
    } else if replied.attachments@.len() > 0 {
        "*[attachment]*"@
    } else {
        "*[no content]*"@
    }
}

/// The quoted reply context shown above the post of a reply:
/// `-# ↳  {avatar} [**name**](link)  text`.
pub open spec fn reply_prefix_spec(message: Message, avatar: Option<Seq<char>>) -> Option<Seq<char>> {
    match message.referenced {
        Some(replied) => Some(
            "-# ↳  "@ + match avatar {
                Some(a) => a + " "@,
                None => Seq::empty(),
            } + "[**"@ + display_name_spec(replied.author) + "**]("@ + msg_link_spec(*replied)
                + ")  "@ + one_line(reply_content(*replied)),
        ),
        None => None,
    }
}

/// The quoted reply context shown above the post, if the message is a reply.
pub fn reply_prefix(message: &Message, avatar: Option<&str>) -> (r: Option<String>)
    ensures
        crate::emoji::opt_view(r) == reply_prefix_spec(
            *message,
            match avatar {
                Some(a) => Some(a@),
                None => None,
            },
        ),
{
    let replied = match &message.referenced {
        Some(m) => m,
        None => {
            return None;
        },
    };
    let content = if replied.content.as_str().unicode_len() > 0 {
        match excerpt(replied.content.as_str(), MAX_REPLY) {
            Some(e) => e,
            None => String::new(),
        }
    } else if replied.attachments.len() > 0 {
        String::from_str("*[attachment]*")
    } else {
        String::from_str("*[no content]*")
    };
    let mut out = String::from_str("-# ↳  ");
    match avatar {
        Some(a) => {
            out.append(a);
            out.append(" ");
        },
        None => {},
    }
    out.append("[**");
    let name = display_name(&replied.author);
    out.append(name.as_str());
    out.append("**](");
    let link = msg_link(replied);
    out.append(link.as_str());
    out.append(")  ");
    let line = one_line_exec(content.as_str());
    out.append(line.as_str());
    proof {
        let av = match avatar {
            Some(a) => Some(a@),
            None => None,
        };
        assert(out@ =~= reply_prefix_spec(*message, av).unwrap());
    }
    Some(out)
}


// ---------------------------------------------------------------------------
// media
// ---------------------------------------------------------------------------

/// The attachments of one message and what becomes of them.
pub struct Plan {
    /// Images and videos, re-hosted and shown in a gallery, as
    /// `(source url, upload name)`.
    pub gallery: Vec<(String, String)>,
    /// Everything else that is re-hosted, voice notes included, shown as file
    /// cards, as `(source url, upload name)`.
    pub files: Vec<(String, String)>,
    /// Attachments too big to re-host, linked instead, as `(file name, url)`.
    pub links: Vec<(String, String)>,
}

pub struct PlanView {
    pub gallery: Seq<(Seq<char>, Seq<char>)>,
    pub files: Seq<(Seq<char>, Seq<char>)>,
    pub links: Seq<(Seq<char>, Seq<char>)>,
}

pub open spec fn pairs_view(v: Seq<(String, String)>) -> Seq<(Seq<char>, Seq<char>)> {
    v.map_values(|p: (String, String)| (p.0@, p.1@))
}

impl View for Plan {
    type V = PlanView;

    open spec fn view(&self) -> PlanView {
        PlanView {
            gallery: pairs_view(self.gallery@),
            files: pairs_view(self.files@),
            links: pairs_view(self.links@),
        }
    }
}

pub open spec fn empty_plan() -> PlanView {
    PlanView { gallery: Seq::empty(), files: Seq::empty(), links: Seq::empty() }
}

impl Plan {
    /// A plan with nothing in it.
    pub fn empty() -> (r: Self)
        ensures
            r@ == empty_plan(),
    {
        let r = Plan { gallery: Vec::new(), files: Vec::new(), links: Vec::new() };
        assert(pairs_view(r.gallery@) =~= Seq::empty());
        assert(pairs_view(r.files@) =~= Seq::empty());
        assert(pairs_view(r.links@) =~= Seq::empty());
        r
    }
}

/// The name a re-hosted attachment is uploaded under: its position among
/// all the attachments of the post, a dash, and its file name. The same
/// message always gives the same names, so an edit can point at the files
/// already uploaded.
pub open spec fn upload_name(index: nat, filename: Seq<char>) -> Seq<char> {
    dec(index) + "-"@ + filename
}

/// Whether Discord can show the attachment in a gallery.
pub open spec fn showable(content_type: Option<String>) -> bool {
    match content_type {
        Some(c) => starts_with(c@, "image/"@) || starts_with(c@, "video/"@),
        None => false,
    }
}

/// How a run of attachments, the first of which has position `first`, is
/// shown.
pub open spec fn plan_spec(atts: Seq<Attachment>, first: nat) -> PlanView
    decreases atts.len(),
{
    if atts.len() == 0 {
        empty_plan()
    } else {
        let p = plan_spec(atts.drop_last(), first);
        let a = atts.last();
        let index = (first + atts.len() - 1) as nat;
        if a.size > MAX_UPLOAD {
            PlanView { links: p.links.push((a.filename@, a.url@)), ..p }
        } else if showable(a.content_type) {
            PlanView { gallery: p.gallery.push((a.url@, upload_name(index, a.filename@))), ..p }
        } else {
            PlanView { files: p.files.push((a.url@, upload_name(index, a.filename@))), ..p }
        }
    }
}

/// The upload names a plan hands out, gallery first.
pub open spec fn upload_names(p: PlanView) -> Seq<Seq<char>> {
    p.gallery.map_values(|e: (Seq<char>, Seq<char>)| e.1) + p.files.map_values(
        |e: (Seq<char>, Seq<char>)| e.1,
    )
}

/// Every name is the upload name of some position in `lo..hi`.
pub open spec fn names_within(names: Seq<Seq<char>>, lo: nat, hi: nat) -> bool {
    forall|i: int|
        #![trigger names[i]]
        0 <= i < names.len() ==> exists|n: nat, f: Seq<char>|
            lo <= n < hi && names[i] == #[trigger] upload_name(n, f)
}

/// Two upload names are equal only for the same position.
pub proof fn lemma_upload_name_position(i: nat, j: nat, f: Seq<char>, g: Seq<char>)
    requires
        upload_name(i, f) == upload_name(j, g),
    ensures
        i == j,
{
    reveal_strlit("-");
    let a = dec(i);
    let b = dec(j);
    let s = upload_name(i, f);
    lemma_dec_digits(i);
    lemma_dec_digits(j);
    assert(s == a + "-"@ + f);
    assert(s == b + "-"@ + g);
    if a.len() < b.len() {
        assert(s[a.len() as int] == '-');
        assert(s[a.len() as int] == b[a.len() as int]);
        assert(crate::text::is_digit(b[a.len() as int]));
    } else if b.len() < a.len() {
        assert(s[b.len() as int] == '-');
        assert(s[b.len() as int] == a[b.len() as int]);
        assert(crate::text::is_digit(a[b.len() as int]));
    } else {
        assert(a =~= s.take(a.len() as int));
        assert(b =~= s.take(b.len() as int));
    }
}

proof fn lemma_plan_names(atts: Seq<Attachment>, first: nat)
    ensures
        upload_names(plan_spec(atts, first)).no_duplicates(),
        names_within(upload_names(plan_spec(atts, first)), first, first + atts.len()),
    decreases atts.len(),
{
    let p = plan_spec(atts, first);
    if atts.len() > 0 {
        let rest = atts.drop_last();
        let q = plan_spec(rest, first);
        lemma_plan_names(rest, first);
        let old_names = upload_names(q);
        let a = atts.last();
        let index = (first + atts.len() - 1) as nat;
        let fresh = upload_name(index, a.filename@);
        // the new name belongs to a later position than every earlier one
        assert forall|i: int| 0 <= i < old_names.len() implies old_names[i] != fresh by {
            let (n, f) = choose|n: nat, f: Seq<char>|
                first <= n < first + rest.len() && old_names[i] == #[trigger] upload_name(n, f);
            if old_names[i] == fresh {
                lemma_upload_name_position(n, index, f, a.filename@);
            }
        }
        let gq = q.gallery.map_values(|e: (Seq<char>, Seq<char>)| e.1);
        let fq = q.files.map_values(|e: (Seq<char>, Seq<char>)| e.1);
        assert(old_names == gq + fq);
        if a.size > MAX_UPLOAD {
            assert(upload_names(p) =~= old_names);
        } else if showable(a.content_type) {
            let gp = p.gallery.map_values(|e: (Seq<char>, Seq<char>)| e.1);
            assert(gp =~= gq.push(fresh));
            let names = upload_names(p);
            assert(names =~= gq.push(fresh) + fq);
            assert forall|i: int, j: int| 0 <= i < j < names.len() implies names[i] != names[j] by {
                if i == gq.len() {
                    assert(names[j] == old_names[j - 1]);
                } else if j == gq.len() {
                    assert(names[i] == old_names[i]);
                } else {
                    let oi = if i < gq.len() { i } else { i - 1 };
                    let oj = if j < gq.len() { j } else { j - 1 };
                    assert(names[i] == old_names[oi]);
                    assert(names[j] == old_names[oj]);
                }
            }
            assert forall|i: int| #![trigger names[i]] 0 <= i < names.len() implies exists|n: nat, f: Seq<char>|
                first <= n < first + atts.len() && names[i] == #[trigger] upload_name(n, f) by {
                if i == gq.len() {
                    assert(names[i] == upload_name(index, a.filename@));
                } else {
                    let oi = if i < gq.len() { i } else { i - 1 };
                    assert(names[i] == old_names[oi]);
                    let (n, f) = choose|n: nat, f: Seq<char>|
                        first <= n < first + rest.len() && old_names[oi] == #[trigger] upload_name(n, f);
                    assert(names[i] == upload_name(n, f));
                }
            }
        } else {
            let fp = p.files.map_values(|e: (Seq<char>, Seq<char>)| e.1);
            assert(fp =~= fq.push(fresh));
            let names = upload_names(p);
            assert(names =~= old_names.push(fresh));
            assert forall|i: int| #![trigger names[i]] 0 <= i < names.len() implies exists|n: nat, f: Seq<char>|
                first <= n < first + atts.len() && names[i] == #[trigger] upload_name(n, f) by {
                if i == old_names.len() {
                    assert(names[i] == upload_name(index, a.filename@));
                } else {
                    assert(names[i] == old_names[i]);
                    let (n, f) = choose|n: nat, f: Seq<char>|
                        first <= n < first + rest.len() && old_names[i] == #[trigger] upload_name(n, f);
                    assert(names[i] == upload_name(n, f));
                }
            }
        }
    } else {
        assert(upload_names(p) =~= Seq::<Seq<char>>::empty());
    }
}

/// No two files uploaded with a post share a name, across the message and
/// the message it forwards: each upload can be pointed at on its own.
pub proof fn upload_names_are_distinct(message: Message)
    ensures
        (upload_names(media_plan_spec(message).0) + upload_names(media_plan_spec(message).1)).no_duplicates(),
{
    let main = plan_spec(message.attachments@, 0);
    let a = message.attachments@.len();
    lemma_plan_names(message.attachments@, 0);
    let m = upload_names(main);
    let fw = upload_names(media_plan_spec(message).1);
    if message.snapshots@.len() > 0 {
        let snap = message.snapshots@[0].attachments@;
        lemma_plan_names(snap, a);
    } else {
        assert(fw =~= Seq::<Seq<char>>::empty());
    }
    let all = m + fw;
    assert forall|i: int, j: int| 0 <= i < j < all.len() implies all[i] != all[j] by {
        if i < m.len() && j >= m.len() {
            assert(all[i] == m[i]);
            assert(all[j] == fw[j - m.len()]);
            let (n1, f1) = choose|n: nat, f: Seq<char>| 0 <= n < 0 + a && m[i] == #[trigger] upload_name(n, f);
            let (n2, f2) = choose|n: nat, f: Seq<char>|
                a <= n && fw[j - m.len()] == #[trigger] upload_name(n, f);
            if all[i] == all[j] {
                lemma_upload_name_position(n1, n2, f1, f2);
            }
        } else if i < m.len() {
            assert(all[i] == m[i]);
            assert(all[j] == m[j]);
        } else {
            assert(all[i] == fw[i - m.len()]);
            assert(all[j] == fw[j - m.len()]);
        }
    }
}

/// How the attachments of a message, and of the message it forwards, are
/// shown.
pub open spec fn media_plan_spec(message: Message) -> (PlanView, PlanView) {
    (
        plan_spec(message.attachments@, 0),
        if message.snapshots@.len() > 0 {
            plan_spec(message.snapshots@[0].attachments@, message.attachments@.len())
        } else {
            empty_plan()
        },
    )
}

pub fn prefix_is(s: &str, prefix: &str) -> (r: bool)
    ensures
        r == starts_with(s@, prefix@),
{
    let v = chars_of(s);
    let p = chars_of(prefix);
    if v.len() < p.len() {
        return false;
    }
    same_chars(sub_vec(v.as_slice(), 0, p.len()).as_slice(), p.as_slice())
}

fn is_showable(content_type: &Option<String>) -> (r: bool)
    ensures
        r == showable(*content_type),
{
    match content_type {
        Some(c) => prefix_is(c.as_str(), "image/") || prefix_is(c.as_str(), "video/"),
        None => false,
    }
}

fn plan_of(atts: &[Attachment], first: u128) -> (r: Plan)
    requires
        first + atts@.len() <= u128::MAX,
    ensures
        r@ == plan_spec(atts@, first as nat),
{
    let mut plan = Plan::empty();
    let mut i: usize = 0;
    while i < atts.len()
        invariant
            i <= atts@.len(),
            first + atts@.len() <= u128::MAX,
            plan@ == plan_spec(atts@.take(i as int), first as nat),
        decreases atts.len() - i,
    {
        let att = &atts[i];
        let index: u128 = first + i as u128;
        let ghost before = plan@;
        assert(atts@.take(i + 1).drop_last() =~= atts@.take(i as int));
        if att.size as usize > MAX_UPLOAD {
            plan.links.push((att.filename.clone(), att.url.clone()));
            assert(plan@.links =~= before.links.push((att.filename@, att.url@)));
        } else {
            let mut name = String::new();
            push_dec_wide(&mut name, index);
            name.append("-");
            name.append(att.filename.as_str());
            if is_showable(&att.content_type) {
                plan.gallery.push((att.url.clone(), name));
                assert(plan@.gallery =~= before.gallery.push(
                    (att.url@, upload_name(index as nat, att.filename@)),
                ));
            } else {
                plan.files.push((att.url.clone(), name));
                assert(plan@.files =~= before.files.push(
                    (att.url@, upload_name(index as nat, att.filename@)),
                ));
            }
        }
        assert(plan@ =~= plan_spec(atts@.take(i + 1), first as nat));
        i = i + 1;
    }
    assert(atts@.take(atts@.len() as int) =~= atts@);
    plan
}

/// How the attachments of a message and of anything it forwards are shown.
pub fn media_plan(message: &Message) -> (r: (Plan, Plan))
    ensures
        (r.0@, r.1@) == media_plan_spec(*message),
{
    let n = message.attachments.len();
    let main = plan_of(message.attachments.as_slice(), 0);
    let forwarded = if message.snapshots.len() > 0 {
        let m = message.snapshots[0].attachments.len();
        assert(m == message.snapshots@[0].attachments@.len());
        plan_of(message.snapshots[0].attachments.as_slice(), n as u128)
    } else {
        Plan::empty()
    };
    (main, forwarded)
}

/// The url the post uses for an upload name: the last pair naming it.
pub open spec fn lookup(media: Seq<(Seq<char>, Seq<char>)>, name: Seq<char>) -> Option<Seq<char>>
    decreases media.len(),
{
    if media.len() == 0 {
        None
    } else if media.last().0 == name {
        Some(media.last().1)
    } else {
        lookup(media.drop_last(), name)
    }
}

/// The urls of the planned uploads that made it onto the message, in plan
/// order.
pub open spec fn resolve_spec(
    planned: Seq<(Seq<char>, Seq<char>)>,
    media: Seq<(Seq<char>, Seq<char>)>,
) -> Seq<Seq<char>>
    decreases planned.len(),
{
    if planned.len() == 0 {
        Seq::empty()
    } else {
        let rest = resolve_spec(planned.drop_last(), media);
        match lookup(media, planned.last().1) {
            Some(u) => rest.push(u),
            None => rest,
        }
    }
}

fn lookup_exec(media: &[(String, String)], name: &str) -> (r: Option<String>)
    ensures
        crate::emoji::opt_view(r) == lookup(pairs_view(media@), name@),
{
    let mut i: usize = media.len();
    assert(media@.take(i as int) =~= media@);
    while i > 0
        invariant
            i <= media@.len(),
            lookup(pairs_view(media@), name@) == lookup(pairs_view(media@.take(i as int)), name@),
        decreases i,
    {
        let ghost t = pairs_view(media@.take(i as int));
        assert(t.last() == (media@[i - 1].0@, media@[i - 1].1@));
        assert(t.drop_last() =~= pairs_view(media@.take(i - 1)));
        if same_text(media[i - 1].0.as_str(), name) {
            return Some(media[i - 1].1.clone());
        }
        i = i - 1;
    }
    assert(pairs_view(media@.take(0)) =~= Seq::empty());
    None
}

/// Looks up the url of every planned upload that actually made it onto the
/// message.
pub fn resolve(planned: &[(String, String)], media: &[(String, String)]) -> (r: Vec<String>)
    ensures
        texts(r@) == resolve_spec(pairs_view(planned@), pairs_view(media@)),
{
    let mut out: Vec<String> = Vec::new();
    let mut i: usize = 0;
    while i < planned.len()
        invariant
            i <= planned@.len(),
            texts(out@) == resolve_spec(pairs_view(planned@.take(i as int)), pairs_view(media@)),
        decreases planned.len() - i,
    {
        let ghost t = pairs_view(planned@.take(i + 1));
        assert(t.drop_last() =~= pairs_view(planned@.take(i as int)));
        assert(t.last() == (planned@[i as int].0@, planned@[i as int].1@));
        match lookup_exec(media, planned[i].1.as_str()) {
            Some(u) => {
                out.push(u);
            },
            None => {},
        }
        assert(texts(out@) =~= resolve_spec(t, pairs_view(media@)));
        i = i + 1;
    }
    assert(planned@.take(planned@.len() as int) =~= planned@);
    out
}

/// A link to an attachment that was not re-hosted: `[name](url)`.
pub open spec fn link_text(l: (Seq<char>, Seq<char>)) -> Seq<char> {
    "["@ + l.0 + "]("@ + l.1 + ")"@
}

/// What one plan shows: a gallery of the re-hosted images and videos
/// followed by `extra`, a file card per other upload, then a line linking
/// whatever was too big to re-host.
pub open spec fn attachments_spec(
    plan: PlanView,
    media: Seq<(Seq<char>, Seq<char>)>,
    extra: Seq<Seq<char>>,
) -> Seq<Part> {
    let urls = resolve_spec(plan.gallery, media) + extra;
    let shown = if urls.len() > 0 {
        seq![crate::components::gallery_part(urls)]
    } else {
        Seq::empty()
    };
    let cards = resolve_spec(plan.files, media).map_values(|u: Seq<char>| Part::File(u));
    let linked = if plan.links.len() > 0 {
        seq![
            Part::Text(
                "-# 📎 "@ + join(plan.links.map_values(|l: (Seq<char>, Seq<char>)| link_text(l)), " · "@),
            ),
        ]
    } else {
        Seq::empty()
    };
    shown + cards + linked
}

/// Renders the attachments of one plan.
pub fn attachments(plan: &Plan, media: &[(String, String)], extra: Vec<String>) -> (r: Vec<
    Component,
>)
    ensures
        parts(r@) == attachments_spec(plan@, pairs_view(media@), texts(extra@)),
{
    let ghost mv = pairs_view(media@);
    let mut items: Vec<Component> = Vec::new();
    let ghost extra_in = extra@;
    let mut urls = resolve(plan.gallery.as_slice(), media);
    let mut more = extra;
    urls.append(&mut more);
    assert(texts(urls@) =~= resolve_spec(plan@.gallery, mv) + texts(extra_in));
    if urls.len() > 0 {
        items.push(gallery(urls.as_slice()));
        assert(items@.drop_last() =~= Seq::<Component>::empty());
        assert(parts(Seq::<Component>::empty()) =~= Seq::<Part>::empty());
        assert(parts(items@) =~= seq![crate::components::gallery_part(texts(urls@))]);
    } else {
        assert(parts(items@) =~= Seq::<Part>::empty());
    }
    let ghost shown = parts(items@);
    let files = resolve(plan.files.as_slice(), media);
    let ghost cards = resolve_spec(plan@.files, mv).map_values(|u: Seq<char>| Part::File(u));
    let mut i: usize = 0;
    while i < files.len()
        invariant
            i <= files@.len(),
            texts(files@) == resolve_spec(plan@.files, mv),
            parts(items@) == shown + cards.take(i as int),
            cards == resolve_spec(plan@.files, mv).map_values(|u: Seq<char>| Part::File(u)),
        decreases files.len() - i,
    {
        let ghost before = items@;
        items.push(file(files[i].clone()));
        proof {
            assert(items@.drop_last() =~= before);
            assert(cards[i as int] == Part::File(files@[i as int]@));
            assert(cards.take(i + 1) =~= cards.take(i as int).push(cards[i as int]));
        }
        i = i + 1;
    }
    assert(cards.take(files@.len() as int) =~= cards);
    if plan.links.len() > 0 {
        let ghost lv = plan@.links.map_values(|l: (Seq<char>, Seq<char>)| link_text(l));
        let mut line = String::from_str("-# 📎 ");
        let mut j: usize = 0;
        let ghost start = line@;
        while j < plan.links.len()
            invariant
                j <= plan.links@.len(),
                lv == plan@.links.map_values(|l: (Seq<char>, Seq<char>)| link_text(l)),
                line@ == start + join(lv.take(j as int), " · "@),
            decreases plan.links.len() - j,
        {
            if j > 0 {
                line.append(" · ");
            }
            line.append("[");
            line.append(plan.links[j].0.as_str());
            line.append("](");
            line.append(plan.links[j].1.as_str());
            line.append(")");
            proof {
                lemma_join_push(lv.take(j as int), " · "@, lv[j as int]);
                assert(lv.take(j + 1) =~= lv.take(j as int).push(lv[j as int]));
                assert(line@ =~= start + join(lv.take(j + 1), " · "@));
            }
            j = j + 1;
        }
        assert(lv.take(plan.links@.len() as int) =~= lv);
        let ghost before = items@;
        items.push(text(line));
        assert(items@.drop_last() =~= before);
        assert(parts(items@) =~= shown + cards + seq![Part::Text("-# 📎 "@ + join(lv, " · "@))]);
    } else {
        assert(parts(items@) =~= shown + cards + Seq::<Part>::empty());
    }
    assert(parts(items@) =~= attachments_spec(plan@, mv, texts(extra_in)));
    items
}


// ---------------------------------------------------------------------------
// embeds
// ---------------------------------------------------------------------------

/// The text lines of a rich embed's fields: the name in bold, then the
/// value.
pub open spec fn fields_text(fields: Seq<EmbedField>) -> Seq<char>
    decreases fields.len(),
{
    if fields.len() == 0 {
        Seq::empty()
    } else {
        fields_text(fields.drop_last()) + "**"@ + fields.last().name@ + "**\n"@
            + fields.last().value@ + "\n"@
    }
}

pub open spec fn line_of(prefix: Seq<char>, o: Option<String>) -> Seq<char> {
    match o {
        Some(s) => prefix + s@ + "\n"@,
        None => Seq::empty(),
    }
}

/// The markdown that stands for a rich embed: author, title (linked when
/// the embed has a url), description, fields and footer, one per line.
pub open spec fn embed_body(e: Embed) -> Seq<char> {
    line_of("-# "@, e.author_name) + match e.title {
        Some(t) => match e.url {
            Some(u) => "### ["@ + t@ + "]("@ + u@ + ")\n"@,
            None => "### "@ + t@ + "\n"@,
        },
        None => Seq::empty(),
    } + line_of(Seq::empty(), e.description) + fields_text(e.fields@) + line_of("-# "@, e.footer_text)
}

/// A link preview of an image or a gif, which shows as just the media.
pub open spec fn is_media_preview(e: Embed) -> bool {
    match e.kind {
        Some(k) => k@ == "gifv"@ || k@ == "image"@,
        None => false,
    }
}

pub open spec fn opt_text(o: Option<String>) -> Option<Seq<char>> {
    match o {
        Some(s) => Some(s@),
        None => None,
    }
}

/// The gallery of an embed's main image, if it has one.
pub open spec fn embed_image_items(e: Embed) -> Seq<Part> {
    match e.image_url {
        Some(u) => seq![crate::components::gallery_part(seq![u@])],
        None => Seq::empty(),
    }
}

/// The container an embed of the original message becomes, since a
/// components-v2 message cannot carry embeds; `None` when it would be empty.
pub open spec fn embed_container_spec(e: Embed) -> Option<Part> {
    if is_media_preview(e) {
        let url = match e.thumbnail_url {
            Some(t) => Some(t@),
            None => opt_text(e.image_url),
        };
        match url {
            Some(u) => Some(
                Part::Container(seq![crate::components::gallery_part(seq![u])]),
            ),
            None => None,
        }
    } else {
        let body = embed_body(e);
        let blank = trim(body).len() == 0;
        if blank && e.image_url is None {
            None
        } else {
            let text_items = if !blank {
                let b = excerpt_spec(body, MAX_CONTENT as nat).unwrap();
                seq![
                    match e.thumbnail_url {
                        Some(t) => Part::Section(seq![Part::Text(b)], Box::new(Part::Thumbnail(t@))),
                        None => Part::Text(b),
                    },
                ]
            } else {
                Seq::empty()
            };
            Some(Part::Container(text_items + embed_image_items(e)))
        }
    }
}

fn push_line(out: &mut String, prefix: &str, o: &Option<String>)
    ensures
        final(out)@ == old(out)@ + line_of(prefix@, *o),
{
    match o {
        Some(s) => {
            out.append(prefix);
            out.append(s.as_str());
            out.append("\n");
        },
        None => {},
    }
    assert(final(out)@ =~= old(out)@ + line_of(prefix@, *o));
}

fn body_of(e: &Embed) -> (r: String)
    ensures
        r@ == embed_body(*e),
{
    let mut body = String::new();
    push_line(&mut body, "-# ", &e.author_name);
    let ghost after_author = body@;
    match &e.title {
        Some(t) => match &e.url {
            Some(u) => {
                body.append("### [");
                body.append(t.as_str());
                body.append("](");
                body.append(u.as_str());
                body.append(")\n");
            },
            None => {
                body.append("### ");
                body.append(t.as_str());
                body.append("\n");
            },
        },
        None => {},
    }
    push_line(&mut body, "", &e.description);
    let ghost start = body@;
    let mut i: usize = 0;
    while i < e.fields.len()
        invariant
            i <= e.fields@.len(),
            body@ == start + fields_text(e.fields@.take(i as int)),
        decreases e.fields.len() - i,
    {
        body.append("**");
        body.append(e.fields[i].name.as_str());
        body.append("**\n");
        body.append(e.fields[i].value.as_str());
        body.append("\n");
        assert(e.fields@.take(i + 1).drop_last() =~= e.fields@.take(i as int));
        assert(body@ =~= start + fields_text(e.fields@.take(i + 1)));
        i = i + 1;
    }
    assert(e.fields@.take(e.fields@.len() as int) =~= e.fields@);
    push_line(&mut body, "-# ", &e.footer_text);
    assert("" @ =~= Seq::<char>::empty()) by {
        reveal_strlit("");
    }
    assert(body@ =~= embed_body(*e));
    body
}

fn one_url(u: String) -> (r: Vec<String>)
    ensures
        texts(r@) == seq![u@],
{
    let mut v: Vec<String> = Vec::new();
    v.push(u);
    assert(texts(v@) =~= seq![u@]);
    v
}

fn single(c: Component) -> (r: Vec<Component>)
    ensures
        parts(r@) == seq![c@],
{
    let mut v: Vec<Component> = Vec::new();
    v.push(c);
    assert(v@.drop_last() =~= Seq::<Component>::empty());
    assert(parts(Seq::<Component>::empty()) =~= Seq::<Part>::empty());
    assert(parts(v@) =~= seq![c@]);
    v
}

/// Renders an embed of the original message as its own container.
pub fn embed_container(e: &Embed) -> (r: Option<Component>)
    ensures
        match r {
            Some(c) => embed_container_spec(*e) == Some(c@),
            None => embed_container_spec(*e) is None,
        },
{
    let preview = match &e.kind {
        Some(k) => same_text(k.as_str(), "gifv") || same_text(k.as_str(), "image"),
        None => false,
    };
    if preview {
        let url = match &e.thumbnail_url {
            Some(t) => t.clone(),
            None => match &e.image_url {
                Some(i) => i.clone(),
                None => {
                    return None;
                },
            },
        };
        let urls = one_url(url);
        let g = gallery(urls.as_slice());
        return Some(container(single(g)));
    }
    let body = body_of(e);
    let blank = crate::text::trimmed(chars_of(body.as_str()).as_slice()).len() == 0;
    if blank && e.image_url.is_none() {
        return None;
    }
    let mut items: Vec<Component> = Vec::new();
    if !blank {
        assert(body@.len() > 0) by {
            if body@.len() == 0 {
                assert(crate::text::trim_start(body@) =~= body@);
                assert(crate::text::trim_end(body@) =~= body@);
            }
        }
        let b = match excerpt(body.as_str(), MAX_CONTENT) {
            Some(b) => b,
            None => String::new(),
        };
        let item = match &e.thumbnail_url {
            Some(t) => section(single(text(b)), thumbnail(t.clone())),
            None => text(b),
        };
        items.push(item);
        assert(items@.drop_last() =~= Seq::<Component>::empty());
        assert(parts(Seq::<Component>::empty()) =~= Seq::<Part>::empty());
    } else {
        assert(parts(items@) =~= Seq::<Part>::empty());
    }
    let ghost text_parts = parts(items@);
    match &e.image_url {
        Some(u) => {
            let urls = one_url(u.clone());
            let ghost before = items@;
            items.push(gallery(urls.as_slice()));
            assert(items@.drop_last() =~= before);
        },
        None => {},
    }
    assert(parts(items@) =~= text_parts + embed_image_items(*e));
    let r = container(items);
    assert(r@ =~= embed_container_spec(*e).unwrap());
    Some(r)
}

// ---------------------------------------------------------------------------
// forwarded messages
// ---------------------------------------------------------------------------

/// A line without the carriage return of a CRLF line ending.
pub open spec fn strip_cr(line: Seq<char>) -> Seq<char> {
    if line.len() > 0 && line.last() == '\r' {
        line.drop_last()
    } else {
        line
    }
}

/// Each line of `s` (as `str::lines` splits it) as a markdown quote line.
pub open spec fn quote_lines(s: Seq<char>) -> Seq<char>
    decreases s.len(),
{
    if s.len() == 0 {
        Seq::empty()
    } else if exists|i: int| first_at(s, '\n', i) {
        let i = choose|i: int| first_at(s, '\n', i);
        "> "@ + strip_cr(s.take(i)) + "\n"@ + quote_lines(s.skip(i + 1))
    } else {
        "> "@ + s + "\n"@
    }
}

fn write_quote_lines(out: &mut String, s: &str)
    ensures
        final(out)@ == old(out)@ + quote_lines(s@),
{
    let v = chars_of(s);
    let n = v.len();
    let ghost start = out@;
    let mut pos: usize = 0;
    assert(v@.skip(0) =~= v@);
    while pos < n
        invariant
            pos <= n,
            n == v@.len(),
            v@ == s@,
            out@ + quote_lines(v@.skip(pos as int)) == start + quote_lines(v@),
        decreases n - pos,
    {
        let ghost rest = v@.skip(pos as int);
        let i = crate::text::find_char(v.as_slice(), '\n', pos, n);
        if i == n {
            assert(!exists|k: int| first_at(rest, '\n', k)) by {
                if exists|k: int| first_at(rest, '\n', k) {
                    let k = choose|k: int| first_at(rest, '\n', k);
                    assert(rest[k] == v@[pos + k]);
                }
            }
            out.append("> ");
            push_chars(out, sub_vec(v.as_slice(), pos, n).as_slice());
            out.append("\n");
            assert(v@.subrange(pos as int, n as int) =~= rest);
            assert(v@.skip(n as int) =~= Seq::<char>::empty());
            assert(out@ + quote_lines(v@.skip(n as int)) =~= start + quote_lines(v@));
            pos = n;
        } else {
            let k = i - pos;
            assert(first_at(rest, '\n', k as int)) by {
                assert forall|j: int| 0 <= j < k implies rest[j] != '\n' by {
                    assert(rest[j] == v@[pos + j]);
                }
            }
            proof {
                let c = choose|c: int| first_at(rest, '\n', c);
                crate::text::lemma_first_at_unique(rest, '\n', c, k as int);
            }
            let mut end = i;
            if end > pos && v[end - 1] == '\r' {
                end = end - 1;
            }
            out.append("> ");
            push_chars(out, sub_vec(v.as_slice(), pos, end).as_slice());
            out.append("\n");
            assert(rest.take(k as int) =~= v@.subrange(pos as int, i as int));
            assert(strip_cr(rest.take(k as int)) =~= v@.subrange(pos as int, end as int));
            assert(rest.skip(k + 1) =~= v@.skip(i + 1));
            pos = i + 1;
        }
    }
}


// ---------------------------------------------------------------------------
// the post
// ---------------------------------------------------------------------------

/// The inline avatar emojis a post needs, for whoever is shown in it.
pub struct Avatars {
    pub author: Option<String>,
    pub reply: Option<String>,
}

/// The author row and the message text: avatar, name, the time in the short
/// form Discord puts there, then the text (or a voice-note marker).
pub open spec fn header_spec(message: Message, author_avatar: Option<Seq<char>>) -> Seq<char> {
    let name = match author_avatar {
        Some(e) => e + " **"@ + display_name_spec(message.author) + "**"@,
        None => "**"@ + display_name_spec(message.author) + "**"@,
    };
    let body = if is_voice_spec(message) {
        "\n-# 🎤 voice message"@
    } else {
        match content_text_spec(message) {
            Some(c) => "\n"@ + c,
            None => Seq::empty(),
        }
    };
    name + "  <t:"@ + dec_signed(message.timestamp as int) + ":t>"@ + body
}

/// What shows alongside the attachments: a lone media link of the content,
/// then the stickers.
pub open spec fn extra_media(message: Message) -> Seq<Seq<char>> {
    match lone_media_url_spec(trim(message.content@)) {
        Some(u) => seq![u] + sticker_urls_spec(message.stickers@),
        None => sticker_urls_spec(message.stickers@),
    }
}

/// The quote of a forwarded message.
pub open spec fn forward_quote(snapshot: Snapshot) -> Seq<char> {
    "-# ↱ *Forwarded*\n"@ + quote_lines(
        match excerpt_spec(snapshot.content@, MAX_CONTENT as nat) {
            Some(c) => c,
            None => Seq::empty(),
        },
    )
}

/// A forwarded message, quoted below the body with its attachments.
pub open spec fn forwarded_items(
    message: Message,
    forwarded: PlanView,
    media: Seq<(Seq<char>, Seq<char>)>,
) -> Seq<Part> {
    if message.snapshots@.len() > 0 {
        let snapshot = message.snapshots@[0];
        seq![Part::Separator, Part::Text(forward_quote(snapshot))] + attachments_spec(
            forwarded,
            media,
            sticker_urls_spec(snapshot.stickers@),
        )
    } else {
        Seq::empty()
    }
}

/// The containers of the embeds, skipping those that would be empty.
pub open spec fn embed_parts(embeds: Seq<Embed>) -> Seq<Part>
    decreases embeds.len(),
{
    if embeds.len() == 0 {
        Seq::empty()
    } else {
        let rest = embed_parts(embeds.drop_last());
        match embed_container_spec(embeds.last()) {
            Some(c) => rest.push(c),
            None => rest,
        }
    }
}

/// The tally line under the post.
pub open spec fn tally_line(message: Message, summary: Seq<char>) -> Seq<char> {
    "-# "@ + summary + " · [jump]("@ + msg_link_spec(message) + ")"@
}

/// The whole post: the reply line (for a reply), one container for the
/// message, one more per carried-over embed (at most `MAX_EMBEDS` looked at),
/// and the tally underneath. `media` maps upload names to the urls the post
/// points at.
pub open spec fn build_spec(
    message: Message,
    summary: Seq<char>,
    media: Seq<(Seq<char>, Seq<char>)>,
    author_avatar: Option<Seq<char>>,
    reply_avatar: Option<Seq<char>>,
) -> Seq<Part> {
    let (main, forwarded) = media_plan_spec(message);
    let top = match reply_prefix_spec(message, reply_avatar) {
        Some(p) => seq![Part::Text(p)],
        None => Seq::empty(),
    };
    let items = seq![Part::Text(header_spec(message, author_avatar))] + attachments_spec(
        main,
        media,
        extra_media(message),
    ) + forwarded_items(message, forwarded, media);
    let shown = message.embeds@.take(
        if message.embeds@.len() < MAX_EMBEDS {
            message.embeds@.len() as int
        } else {
            MAX_EMBEDS as int
        },
    );
    top + seq![Part::Container(items)] + embed_parts(shown) + seq![
        Part::Text(tally_line(message, summary)),
    ]
}

fn header(message: &Message, author_avatar: &Option<String>) -> (r: String)
    ensures
        r@ == header_spec(*message, opt_text(*author_avatar)),
{
    let name = display_name(&message.author);
    let mut body = String::new();
    match author_avatar {
        Some(e) => {
            body.append(e.as_str());
            body.append(" **");
        },
        None => {
            body.append("**");
        },
    }
    body.append(name.as_str());
    body.append("**");
    body.append("  <t:");
    push_dec_signed(&mut body, message.timestamp);
    body.append(":t>");
    if is_voice(message) {
        body.append("\n-# 🎤 voice message");
    } else {
        match content_text(message) {
            Some(c) => {
                body.append("\n");
                body.append(c.as_str());
            },
            None => {},
        }
    }
    assert(body@ =~= header_spec(*message, opt_text(*author_avatar)));
    body
}

fn extras(message: &Message) -> (r: Vec<String>)
    ensures
        texts(r@) == extra_media(*message),
{
    let stickers = sticker_urls(message.stickers.as_slice());
    let trimmed = crate::text::trimmed(chars_of(message.content.as_str()).as_slice());
    let t = string_of(trimmed.as_slice());
    match lone_media_url(t.as_str()) {
        Some(u) => {
            let mut v: Vec<String> = Vec::new();
            v.push(u);
            let mut rest = stickers;
            v.append(&mut rest);
            assert(texts(v@) =~= extra_media(*message));
            v
        },
        None => stickers,
    }
}

fn forward_quote_exec(snapshot: &Snapshot) -> (r: String)
    ensures
        r@ == forward_quote(*snapshot),
{
    let content = match excerpt(snapshot.content.as_str(), MAX_CONTENT) {
        Some(c) => c,
        None => String::new(),
    };
    let mut quote = String::from_str("-# ↱ *Forwarded*\n");
    write_quote_lines(&mut quote, content.as_str());
    quote
}

fn embed_containers(embeds: &[Embed]) -> (r: Vec<Component>)
    ensures
        parts(r@) == embed_parts(
            embeds@.take(
                if embeds@.len() < MAX_EMBEDS {
                    embeds@.len() as int
                } else {
                    MAX_EMBEDS as int
                },
            ),
        ),
{
    let n = if embeds.len() < MAX_EMBEDS {
        embeds.len()
    } else {
        MAX_EMBEDS
    };
    let mut out: Vec<Component> = Vec::new();
    let mut i: usize = 0;
    assert(parts(out@) =~= Seq::<Part>::empty());
    while i < n
        invariant
            i <= n <= embeds@.len(),
            parts(out@) == embed_parts(embeds@.take(i as int)),
        decreases n - i,
    {
        assert(embeds@.take(i + 1).drop_last() =~= embeds@.take(i as int));
        match embed_container(&embeds[i]) {
            Some(c) => push_part(&mut out, c),
            None => {},
        }
        i = i + 1;
    }
    out
}

/// Builds the whole post.
pub fn build(message: &Message, summary: &str, media: &[(String, String)], avatars: &Avatars) -> (r:
    Vec<Component>)
    ensures
        parts(r@) == build_spec(
            *message,
            summary@,
            pairs_view(media@),
            opt_text(avatars.author),
            opt_text(avatars.reply),
        ),
{
    let ghost mv = pairs_view(media@);
    let (main, forwarded) = media_plan(message);

    // the reply context sits above the container, the way Discord draws a
    // reply
    let mut components: Vec<Component> = Vec::new();
    let reply_avatar = match &avatars.reply {
        Some(a) => Some(a.as_str()),
        None => None,
    };
    match reply_prefix(message, reply_avatar) {
        Some(p) => push_part(&mut components, text(p)),
        None => {},
    }
    assert(parts(components@) =~= match reply_prefix_spec(*message, opt_text(avatars.reply)) {
        Some(p) => seq![Part::Text(p)],
        None => Seq::<Part>::empty(),
    });
    let ghost top = parts(components@);

    let mut items: Vec<Component> = Vec::new();
    push_part(&mut items, text(header(message, &avatars.author)));
    extend_parts(&mut items, attachments(&main, media, extras(message)));
    if message.snapshots.len() > 0 {
        let snapshot = &message.snapshots[0];
        push_part(&mut items, separator());
        push_part(&mut items, text(forward_quote_exec(snapshot)));
        extend_parts(
            &mut items,
            attachments(&forwarded, media, sticker_urls(snapshot.stickers.as_slice())),
        );
    }
    assert(parts(items@) =~= seq![Part::Text(header_spec(*message, opt_text(avatars.author)))]
        + attachments_spec(main@, mv, extra_media(*message)) + forwarded_items(
        *message,
        forwarded@,
        mv,
    ));
    push_part(&mut components, container(items));
    extend_parts(&mut components, embed_containers(message.embeds.as_slice()));

    // the tally goes under the message, where Discord puts reactions
    let mut line = String::from_str("-# ");
    line.append(summary);
    line.append(" · [jump](");
    let link = msg_link(message);
    line.append(link.as_str());
    line.append(")");
    push_part(&mut components, text(line));
    assert(parts(components@) =~= build_spec(
        *message,
        summary@,
        mv,
        opt_text(avatars.author),
        opt_text(avatars.reply),
    ));
    components
}


// ---------------------------------------------------------------------------
// what a post shows
// ---------------------------------------------------------------------------

/// A planned upload that made it onto the message is among the resolved
/// urls.
pub proof fn lemma_resolve_contains(
    planned: Seq<(Seq<char>, Seq<char>)>,
    media: Seq<(Seq<char>, Seq<char>)>,
    i: int,
    u: Seq<char>,
)
    requires
        0 <= i < planned.len(),
        lookup(media, planned[i].1) == Some(u),
    ensures
        resolve_spec(planned, media).contains(u),
    decreases planned.len(),
{
    let rest = resolve_spec(planned.drop_last(), media);
    if i == planned.len() - 1 {
        assert(resolve_spec(planned, media) == rest.push(u));
        assert(rest.push(u)[rest.len() as int] == u);
    } else {
        assert(planned.drop_last()[i] == planned[i]);
        lemma_resolve_contains(planned.drop_last(), media, i, u);
        let k = choose|k: int| 0 <= k < rest.len() && rest[k] == u;
        match lookup(media, planned.last().1) {
            Some(v) => {
                assert(resolve_spec(planned, media) == rest.push(v));
                assert(rest.push(v)[k] == u);
            },
            None => {},
        }
    }
}

/// The media of a plan: when there is anything to show in a gallery (the
/// uploaded images and videos that made it onto the message, then the extra
/// urls), the first item is one gallery of exactly those urls, cut at ten;
/// otherwise no gallery is shown at all. Every uploaded file that made it
/// shows as a file card.
pub proof fn attachments_show_gallery_then_files(
    plan: PlanView,
    media: Seq<(Seq<char>, Seq<char>)>,
    extra: Seq<Seq<char>>,
)
    ensures
        (resolve_spec(plan.gallery, media) + extra).len() > 0 ==> {
            &&& attachments_spec(plan, media, extra).len() > 0
            &&& attachments_spec(plan, media, extra)[0] == Part::Gallery(
                (resolve_spec(plan.gallery, media) + extra).take(
                    if (resolve_spec(plan.gallery, media) + extra).len() < 10 {
                        (resolve_spec(plan.gallery, media) + extra).len() as int
                    } else {
                        10
                    },
                ),
            )
        },
        (resolve_spec(plan.gallery, media) + extra).len() == 0 ==> forall|i: int|
            0 <= i < attachments_spec(plan, media, extra).len() ==> !(
            #[trigger] attachments_spec(plan, media, extra)[i] is Gallery),
        forall|i: int|
            0 <= i < resolve_spec(plan.files, media).len() ==> attachments_spec(plan, media, extra).contains(
                Part::File(#[trigger] resolve_spec(plan.files, media)[i]),
            ),
{
    let urls = resolve_spec(plan.gallery, media) + extra;
    let shown = if urls.len() > 0 {
        seq![crate::components::gallery_part(urls)]
    } else {
        Seq::<Part>::empty()
    };
    let files = resolve_spec(plan.files, media);
    let cards = files.map_values(|u: Seq<char>| Part::File(u));
    let linked = if plan.links.len() > 0 {
        seq![
            Part::Text(
                "-# 📎 "@ + join(plan.links.map_values(|l: (Seq<char>, Seq<char>)| link_text(l)), " · "@),
            ),
        ]
    } else {
        Seq::<Part>::empty()
    };
    let all = attachments_spec(plan, media, extra);
    assert(all == shown + cards + linked);
    if urls.len() == 0 {
        assert forall|i: int| 0 <= i < all.len() implies !(#[trigger] all[i] is Gallery) by {
            if i < cards.len() {
                assert(all[i] == cards[i]);
            } else {
                assert(all[i] == linked[i - cards.len()]);
            }
        }
    }
    assert forall|i: int| 0 <= i < files.len() implies all.contains(Part::File(#[trigger] files[i])) by {
        assert(all[shown.len() + i] == cards[i]);
    }
}

/// An embed that is not a link preview of an image or a gif, and has an
/// image, becomes a container that ends with a gallery of exactly that
/// image, after at most one text item, whether or not the embed has text.
pub proof fn embed_image_is_shown(e: Embed)
    requires
        !(match e.kind {
            Some(k) => k@ == "gifv"@ || k@ == "image"@,
            None => false,
        }),
        e.image_url is Some,
    ensures
        embed_container_spec(e) matches Some(Part::Container(items)) && {
            &&& 1 <= items.len() <= 2
            &&& items.last() == Part::Gallery(seq![e.image_url.unwrap()@])
        },
{
    let u = e.image_url.unwrap()@;
    assert(seq![u].take(1) =~= seq![u]);
}

/// `piece` stands somewhere inside `line`.
pub open spec fn holds_text(line: Seq<char>, piece: Seq<char>) -> bool {
    exists|k: int| 0 <= k && k + piece.len() <= line.len() && #[trigger] line.subrange(k, k + piece.len()) == piece
}

/// The server number a message link carries: 0 for a message outside any
/// server.
pub open spec fn guild_number(guild_id: Option<u64>) -> nat {
    match guild_id {
        Some(g) => g as nat,
        None => 0,
    }
}

/// The reply line of a reply links to the message it replies to: the link
/// names the replied-to message's server, channel and id.
pub proof fn reply_links_the_replied_message(message: Message, avatar: Option<Seq<char>>)
    requires
        message.referenced is Some,
    ensures
        ({
            let replied = *message.referenced.unwrap();
            let piece = "]("@ + "https://discord.com/channels/"@ + dec(guild_number(replied.guild_id)) + "/"@ + dec(replied.channel_id as nat) + "/"@ + dec(replied.id as nat) + ")  "@;
            reply_prefix_spec(message, avatar) matches Some(line) && holds_text(line, piece)
        }),
{
    let r = *message.referenced.unwrap();
    let link = "https://discord.com/channels/"@ + dec(guild_number(r.guild_id)) + "/"@ + dec(r.channel_id as nat) + "/"@ + dec(r.id as nat);
    let piece = "]("@ + "https://discord.com/channels/"@ + dec(guild_number(r.guild_id)) + "/"@ + dec(r.channel_id as nat) + "/"@ + dec(r.id as nat) + ")  "@;
    assert(piece =~= "]("@ + link + ")  "@);
    assert(link == msg_link_spec(r));
    let a = "-# ↳  "@ + match avatar {
        Some(x) => x + " "@,
        None => Seq::empty(),
    } + "[**"@ + display_name_spec(r.author) + "**"@;
    let b = one_line(reply_content(r));
    let line = reply_prefix_spec(message, avatar).unwrap();
    reveal_strlit("**](");
    reveal_strlit("**");
    reveal_strlit("](");
    assert("**]("@ =~= "**"@ + "]("@);
    assert(line =~= a + piece + b);
    let k: int = a.len() as int;
    assert(line.subrange(k, k + piece.len()) =~= piece);
    assert(holds_text(line, piece));
    assert(reply_prefix_spec(message, avatar) == Some(line));
}

/// How the attachments a message forwards are planned.
pub open spec fn forwarded_plan(message: Message) -> PlanView {
    plan_spec(message.snapshots@[0].attachments@, message.attachments@.len())
}

/// Where the message's own container stands in a post: after the reply
/// line, when there is one.
pub open spec fn container_index(message: Message) -> int {
    if message.referenced is Some {
        1
    } else {
        0
    }
}

/// The items of the component at `at` of a post, when it is a container.
pub open spec fn items_at(post: Seq<Part>, at: int) -> Seq<Part> {
    match post[at] {
        Part::Container(items) => items,
        _ => Seq::empty(),
    }
}

/// A post of a message that forwards another: the message's container
/// holds the forward quote, and right after it the media of the forwarded
/// attachments with the forwarded stickers, to the end of the container.
/// So every forwarded file that made it onto the post shows as a file card,
/// and any forwarded image or video that made it starts a gallery right
/// after the quote.
pub proof fn forwarded_media_is_shown(
    message: Message,
    summary: Seq<char>,
    media: Seq<(Seq<char>, Seq<char>)>,
    author_avatar: Option<Seq<char>>,
    reply_avatar: Option<Seq<char>>,
)
    requires
        message.snapshots@.len() > 0,
    ensures
        build_spec(message, summary, media, author_avatar, reply_avatar)[container_index(message)] is Container,
        exists|j: int|
            0 <= j < items_at(build_spec(message, summary, media, author_avatar, reply_avatar), container_index(message)).len()
            && #[trigger] items_at(build_spec(message, summary, media, author_avatar, reply_avatar), container_index(message))[j]
                == Part::Text(forward_quote(message.snapshots@[0]))
            && items_at(build_spec(message, summary, media, author_avatar, reply_avatar), container_index(message)).skip(j + 1)
                == attachments_spec(forwarded_plan(message), media, sticker_urls_spec(message.snapshots@[0].stickers@)),
        forall|i: int, u: Seq<char>|
            #![trigger forwarded_plan(message).files[i], items_at(build_spec(message, summary, media, author_avatar, reply_avatar), container_index(message)).contains(Part::File(u))]
            0 <= i < forwarded_plan(message).files.len() && lookup(media, forwarded_plan(message).files[i].1) == Some(u)
                ==> items_at(build_spec(message, summary, media, author_avatar, reply_avatar), container_index(message)).contains(Part::File(u)),
        resolve_spec(forwarded_plan(message).gallery, media).len() > 0 ==> exists|j: int|
            0 <= j && j + 1 < items_at(build_spec(message, summary, media, author_avatar, reply_avatar), container_index(message)).len()
            && #[trigger] items_at(build_spec(message, summary, media, author_avatar, reply_avatar), container_index(message))[j]
                == Part::Text(forward_quote(message.snapshots@[0]))
            && (items_at(build_spec(message, summary, media, author_avatar, reply_avatar), container_index(message))[j + 1] matches Part::Gallery(g)
                && g.len() > 0 && g[0] == resolve_spec(forwarded_plan(message).gallery, media)[0]),
{
    let post = build_spec(message, summary, media, author_avatar, reply_avatar);
    let at = container_index(message);
    let snapshot = message.snapshots@[0];
    let forwarded = forwarded_plan(message);
    let (main, fw) = media_plan_spec(message);
    assert(fw == forwarded);
    let top = match reply_prefix_spec(message, reply_avatar) {
        Some(p) => seq![Part::Text(p)],
        None => Seq::<Part>::empty(),
    };
    assert(top.len() == at);
    let head = seq![Part::Text(header_spec(message, author_avatar))] + attachments_spec(
        main,
        media,
        extra_media(message),
    );
    let quote = seq![Part::Separator, Part::Text(forward_quote(snapshot))];
    let tail = attachments_spec(forwarded, media, sticker_urls_spec(snapshot.stickers@));
    let items = head + forwarded_items(message, forwarded, media);
    assert(forwarded_items(message, forwarded, media) == quote + tail);
    assert(items =~= head + quote + tail);
    assert(post[at] == Part::Container(items));
    assert(items_at(post, at) == items);
    let j: int = head.len() as int + 1;
    assert(items[j] == Part::Text(forward_quote(snapshot)));
    assert(items.skip(j + 1) =~= tail);
    attachments_show_gallery_then_files(forwarded, media, sticker_urls_spec(snapshot.stickers@));
    assert forall|i: int, u: Seq<char>|
        0 <= i < forwarded.files.len() && lookup(media, forwarded.files[i].1) == Some(u) implies items.contains(Part::File(u)) by {
        lemma_resolve_contains(forwarded.files, media, i, u);
        let files = resolve_spec(forwarded.files, media);
        let k = choose|k: int| 0 <= k < files.len() && files[k] == u;
        assert(tail.contains(Part::File(files[k])));
        let m = choose|m: int| 0 <= m < tail.len() && tail[m] == Part::File(u);
        assert(items[j + 1 + m] == tail[m]);
    }
    if resolve_spec(forwarded.gallery, media).len() > 0 {
        let all = resolve_spec(forwarded.gallery, media) + sticker_urls_spec(snapshot.stickers@);
        assert(all[0] == resolve_spec(forwarded.gallery, media)[0]);
        assert(items[j + 1] == tail[0]);
    }
}

} // verus!
