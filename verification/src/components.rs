//! Discord's "components v2" message layout: the building blocks a post is
//! made of, and their JSON form as the API takes it.
use vstd::prelude::*;

use crate::emoji::{ReactionType, ReactionView};
use crate::text::{dec, push_char, push_dec, texts};

verus! {

/// Message flag: the message is laid out with components v2.
pub const IS_COMPONENTS_V2: u64 = 1 << 15;

/// Message flag: only the user who triggered the interaction sees it.
pub const EPHEMERAL: u64 = 1 << 6;

/// Button style: blurple.
pub const PRIMARY: u8 = 1;

/// Button style: red.
pub const DANGER: u8 = 4;

/// A media gallery holds at most ten items.
pub const MAX_GALLERY: usize = 10;

/// What a button shows.
pub enum ButtonFace {
    Emoji(ReactionType),
    Label(String),
}

/// One component of a components-v2 message.
pub enum Component {
    /// Markdown text (type 10).
    Text { content: String },
    /// Text with an accessory beside it (type 9).
    Section { components: Vec<Component>, accessory: Box<Component> },
    /// A small image, used as a section accessory (type 11).
    Thumbnail { url: String },
    /// A grid of images and videos (type 12).
    Gallery { urls: Vec<String> },
    /// An attachment card (type 13).
    File { url: String },
    /// A divider line (type 14).
    Separator,
    /// A box around other components, without an accent colour (type 17).
    Container { components: Vec<Component> },
    /// A row of buttons (type 1).
    ActionRow { components: Vec<Component> },
    /// A clickable button (type 2).
    Button { custom_id: String, style: u8, disabled: bool, face: ButtonFace },
}

/// What a button shows, with text as character sequences.
pub enum Face {
    Emoji(ReactionView),
    Label(Seq<char>),
}

/// A component with its text taken as character sequences.
pub enum Part {
    Text(Seq<char>),
    Section(Seq<Part>, Box<Part>),
    Thumbnail(Seq<char>),
    Gallery(Seq<Seq<char>>),
    File(Seq<char>),
    Separator,
    Container(Seq<Part>),
    ActionRow(Seq<Part>),
    Button { custom_id: Seq<char>, style: u8, disabled: bool, face: Face },
}

pub open spec fn face_view(f: ButtonFace) -> Face {
    match f {
        ButtonFace::Emoji(e) => Face::Emoji(e@),
        ButtonFace::Label(l) => Face::Label(l@),
    }
}

pub open spec fn part(c: Component) -> Part
    decreases c,
{
    match c {
        Component::Text { content } => Part::Text(content@),
        Component::Section { components, accessory } => Part::Section(
            parts(components@),
            Box::new(part(*accessory)),
        ),
        Component::Thumbnail { url } => Part::Thumbnail(url@),
        Component::Gallery { urls } => Part::Gallery(texts(urls@)),
        Component::File { url } => Part::File(url@),
        Component::Separator => Part::Separator,
        Component::Container { components } => Part::Container(parts(components@)),
        Component::ActionRow { components } => Part::ActionRow(parts(components@)),
        Component::Button { custom_id, style, disabled, face } => Part::Button {
            custom_id: custom_id@,
            style,
            disabled,
            face: face_view(face),
        },
    }
}

pub open spec fn parts(cs: Seq<Component>) -> Seq<Part>
    decreases cs,
{
    if cs.len() == 0 {
        Seq::empty()
    } else {
        parts(cs.drop_last()).push(part(cs.last()))
    }
}

impl View for Component {
    type V = Part;

    open spec fn view(&self) -> Part {
        part(*self)
    }
}

// ---------------------------------------------------------------------------
// JSON
// ---------------------------------------------------------------------------

pub open spec fn hex_digit(n: nat) -> char {
    if n < 10 {
        crate::text::digit_char(n)
    } else if n == 10 {
        'a'
    } else if n == 11 {
        'b'
    } else if n == 12 {
        'c'
    } else if n == 13 {
        'd'
    } else if n == 14 {
        'e'
    } else {
        'f'
    }
}

/// A character as it stands inside a JSON string.
pub open spec fn escape_char(c: char) -> Seq<char> {
    if c == '"' {
        seq!['\\', '"']
    } else if c == '\\' {
        seq!['\\', '\\']
    } else if (c as u32) < 0x20 {
        seq!['\\', 'u', '0', '0', hex_digit(((c as u32) / 16) as nat), hex_digit(((c as u32) % 16) as nat)]
    } else {
        seq![c]
    }
}

pub open spec fn escape(s: Seq<char>) -> Seq<char>
    decreases s.len(),
{
    if s.len() == 0 {
        Seq::empty()
    } else {
        escape(s.drop_last()) + escape_char(s.last())
    }
}

/// A JSON string literal.
pub open spec fn json_str(s: Seq<char>) -> Seq<char> {
    seq!['"'] + escape(s) + seq!['"']
}

pub open spec fn json_bool(b: bool) -> Seq<char> {
    if b {
        "true"@
    } else {
        "false"@
    }
}

/// The partial emoji object Discord takes for a button's emoji.
pub open spec fn emoji_json(e: ReactionView) -> Seq<char> {
    match e {
        ReactionView::Custom { animated, id, name } => "{\"animated\":"@ + json_bool(animated)
            + ",\"id\":\""@ + dec(id as nat) + "\",\"name\":"@ + match name {
            Some(n) => json_str(n),
            None => "null"@,
        } + "}"@,
        ReactionView::Unicode(s) => "{\"name\":"@ + json_str(s) + "}"@,
    }
}

/// The JSON object of a gallery item.
pub open spec fn media_json(url: Seq<char>) -> Seq<char> {
    "{\"media\":{\"url\":"@ + json_str(url) + "}}"@
}

/// Gallery items separated by commas.
pub open spec fn media_items(urls: Seq<Seq<char>>) -> Seq<char>
    decreases urls.len(),
{
    if urls.len() == 0 {
        Seq::empty()
    } else if urls.len() == 1 {
        media_json(urls[0])
    } else {
        media_items(urls.drop_last()) + ","@ + media_json(urls.last())
    }
}

/// A component's JSON object.
pub open spec fn json(c: Part) -> Seq<char>
    decreases c,
{
    match c {
        Part::Text(content) => "{\"type\":10,\"content\":"@ + json_str(content) + "}"@,
        Part::Section(components, accessory) => "{\"type\":9,\"components\":["@ + json_items(
            components,
        ) + "],\"accessory\":"@ + json(*accessory) + "}"@,
        Part::Thumbnail(url) => "{\"type\":11,\"media\":{\"url\":"@ + json_str(url) + "}}"@,
        Part::Gallery(urls) => "{\"type\":12,\"items\":["@ + media_items(urls) + "]}"@,
        Part::File(url) => "{\"type\":13,\"file\":{\"url\":"@ + json_str(url) + "}}"@,
        Part::Separator => "{\"type\":14,\"divider\":true,\"spacing\":1}"@,
        Part::Container(components) => "{\"type\":17,\"components\":["@ + json_items(components)
            + "]}"@,
        Part::ActionRow(components) => "{\"type\":1,\"components\":["@ + json_items(components)
            + "]}"@,
        Part::Button { custom_id, style, disabled, face } => "{\"type\":2,\"style\":"@ + dec(
            style as nat,
        ) + ",\"custom_id\":"@ + json_str(custom_id) + ",\"disabled\":"@ + json_bool(disabled)
            + match face {
            Face::Emoji(e) => ",\"emoji\":"@ + emoji_json(e),
            Face::Label(l) => ",\"label\":"@ + json_str(l),
        } + "}"@,
    }
}

/// Component objects separated by commas.
pub open spec fn json_items(cs: Seq<Part>) -> Seq<char>
    decreases cs,
{
    if cs.len() == 0 {
        Seq::empty()
    } else if cs.len() == 1 {
        json(cs[0])
    } else {
        json_items(cs.drop_last()) + ","@ + json(cs.last())
    }
}

/// A JSON array of components.
pub open spec fn json_list(cs: Seq<Part>) -> Seq<char> {
    "["@ + json_items(cs) + "]"@
}

fn hex_of(n: u32) -> (c: char)
    requires
        n < 16,
    ensures
        c == hex_digit(n as nat),
{
    match n {
        0 => '0',
        1 => '1',
        2 => '2',
        3 => '3',
        4 => '4',
        5 => '5',
        6 => '6',
        7 => '7',
        8 => '8',
        9 => '9',
        10 => 'a',
        11 => 'b',
        12 => 'c',
        13 => 'd',
        14 => 'e',
        _ => 'f',
    }
}

fn write_escaped_char(out: &mut String, c: char)
    ensures
        final(out)@ == old(out)@ + escape_char(c),
{
    if c == '"' {
        push_char(out, '\\');
        push_char(out, '"');
    } else if c == '\\' {
        push_char(out, '\\');
        push_char(out, '\\');
    } else if (c as u32) < 0x20 {
        let v = c as u32;
        push_char(out, '\\');
        push_char(out, 'u');
        push_char(out, '0');
        push_char(out, '0');
        push_char(out, hex_of(v / 16));
        push_char(out, hex_of(v % 16));
    } else {
        push_char(out, c);
    }
    assert(final(out)@ =~= old(out)@ + escape_char(c));
}

/// Appends a JSON string literal.
pub fn write_str(out: &mut String, s: &str)
    ensures
        final(out)@ == old(out)@ + json_str(s@),
{
    let v = crate::text::chars_of(s);
    push_char(out, '"');
    let ghost start = out@;
    let mut i: usize = 0;
    while i < v.len()
        invariant
            i <= v@.len(),
            v@ == s@,
            out@ == start + escape(v@.take(i as int)),
        decreases v.len() - i,
    {
        write_escaped_char(out, v[i]);
        assert(v@.take(i + 1).drop_last() =~= v@.take(i as int));
        i = i + 1;
    }
    assert(v@.take(v@.len() as int) =~= v@);
    push_char(out, '"');
    assert(final(out)@ =~= old(out)@ + json_str(s@));
}

fn write_bool(out: &mut String, b: bool)
    ensures
        final(out)@ == old(out)@ + json_bool(b),
{
    if b {
        out.append("true");
    } else {
        out.append("false");
    }
}

fn write_emoji(out: &mut String, e: &ReactionType)
    ensures
        final(out)@ == old(out)@ + emoji_json(e@),
{
    match e {
        ReactionType::Custom { animated, id, name } => {
            out.append("{\"animated\":");
            write_bool(out, *animated);
            out.append(",\"id\":\"");
            push_dec(out, *id);
            out.append("\",\"name\":");
            match name {
                Some(n) => write_str(out, n.as_str()),
                None => out.append("null"),
            }
            out.append("}");
        },
        ReactionType::Unicode(s) => {
            out.append("{\"name\":");
            write_str(out, s.as_str());
            out.append("}");
        },
    }
    assert(final(out)@ =~= old(out)@ + emoji_json(e@));
}

fn write_media_items(out: &mut String, urls: &Vec<String>)
    ensures
        final(out)@ == old(out)@ + media_items(texts(urls@)),
{
    let ghost start = out@;
    let mut i: usize = 0;
    while i < urls.len()
        invariant
            i <= urls@.len(),
            out@ == start + media_items(texts(urls@.take(i as int))),
        decreases urls.len() - i,
    {
        if i > 0 {
            out.append(",");
        }
        out.append("{\"media\":{\"url\":");
        write_str(out, urls[i].as_str());
        out.append("}}");
        let ghost t = texts(urls@.take(i + 1));
        assert(t.drop_last() =~= texts(urls@.take(i as int)));
        assert(out@ =~= start + media_items(t));
        i = i + 1;
    }
    assert(texts(urls@.take(urls@.len() as int)) =~= texts(urls@));
}

/// Appends a component's JSON object.
pub fn write_json(out: &mut String, c: &Component)
    ensures
        final(out)@ == old(out)@ + json(c@),
    decreases c,
{
    match c {
        Component::Text { content } => {
            out.append("{\"type\":10,\"content\":");
            write_str(out, content.as_str());
            out.append("}");
        },
        Component::Section { components, accessory } => {
            out.append("{\"type\":9,\"components\":[");
            write_items(out, components);
            out.append("],\"accessory\":");
            write_json(out, accessory);
            out.append("}");
        },
        Component::Thumbnail { url } => {
            out.append("{\"type\":11,\"media\":{\"url\":");
            write_str(out, url.as_str());
            out.append("}}");
        },
        Component::Gallery { urls } => {
            out.append("{\"type\":12,\"items\":[");
            write_media_items(out, urls);
            out.append("]}");
        },
        Component::File { url } => {
            out.append("{\"type\":13,\"file\":{\"url\":");
            write_str(out, url.as_str());
            out.append("}}");
        },
        Component::Separator => {
            out.append("{\"type\":14,\"divider\":true,\"spacing\":1}");
        },
        Component::Container { components } => {
            out.append("{\"type\":17,\"components\":[");
            write_items(out, components);
            out.append("]}");
        },
        Component::ActionRow { components } => {
            out.append("{\"type\":1,\"components\":[");
            write_items(out, components);
            out.append("]}");
        },
        Component::Button { custom_id, style, disabled, face } => {
            out.append("{\"type\":2,\"style\":");
            push_dec(out, *style as u64);
            out.append(",\"custom_id\":");
            write_str(out, custom_id.as_str());
            out.append(",\"disabled\":");
            write_bool(out, *disabled);
            match face {
                ButtonFace::Emoji(e) => {
                    out.append(",\"emoji\":");
                    write_emoji(out, e);
                },
                ButtonFace::Label(l) => {
                    out.append(",\"label\":");
                    write_str(out, l.as_str());
                },
            }
            out.append("}");
        },
    }
    assert(final(out)@ =~= old(out)@ + json(c@));
}

/// Appends component objects separated by commas.
pub fn write_items(out: &mut String, cs: &Vec<Component>)
    ensures
        final(out)@ == old(out)@ + json_items(parts(cs@)),
    decreases cs,
{
    let ghost start = out@;
    let mut i: usize = 0;
    while i < cs.len()
        invariant
            i <= cs@.len(),
            out@ == start + json_items(parts(cs@.take(i as int))),
        decreases cs.len() - i,
    {
        if i > 0 {
            out.append(",");
        }
        write_json(out, &cs[i]);
        let ghost t = cs@.take(i + 1);
        assert(t.drop_last() =~= cs@.take(i as int));
        assert(parts(t).drop_last() =~= parts(cs@.take(i as int)));
        assert(out@ =~= start + json_items(parts(t)));
        i = i + 1;
    }
    assert(cs@.take(cs@.len() as int) =~= cs@);
}

impl Component {
    /// This component as a JSON object.
    pub fn to_json(&self) -> (r: String)
        ensures
            r@ == json(self@),
    {
        let mut out = String::new();
        write_json(&mut out, self);
        assert(out@ =~= json(self@));
        out
    }
}

/// A list of components as a JSON array.
pub fn list_to_json(cs: &Vec<Component>) -> (r: String)
    ensures
        r@ == json_list(parts(cs@)),
{
    let mut out = String::from_str("[");
    write_items(&mut out, cs);
    out.append("]");
    out
}

pub proof fn lemma_parts_push(cs: Seq<Component>, c: Component)
    ensures
        parts(cs.push(c)) == parts(cs).push(c@),
{
    assert(cs.push(c).drop_last() =~= cs);
}

pub proof fn lemma_parts_concat(a: Seq<Component>, b: Seq<Component>)
    ensures
        parts(a + b) == parts(a) + parts(b),
    decreases b.len(),
{
    if b.len() == 0 {
        assert(a + b =~= a);
        assert(parts(b) =~= Seq::<Part>::empty());
        assert(parts(a) + parts(b) =~= parts(a));
    } else {
        lemma_parts_concat(a, b.drop_last());
        assert((a + b).drop_last() =~= a + b.drop_last());
        assert(parts(a) + parts(b) =~= (parts(a) + parts(b.drop_last())).push(part(b.last())));
    }
}

/// Adds a component at the end.
pub fn push_part(v: &mut Vec<Component>, c: Component)
    ensures
        parts(final(v)@) == parts(old(v)@).push(c@),
{
    proof {
        lemma_parts_push(old(v)@, c);
    }
    v.push(c);
}

/// Adds components at the end.
pub fn extend_parts(v: &mut Vec<Component>, w: Vec<Component>)
    ensures
        parts(final(v)@) == parts(old(v)@) + parts(w@),
{
    proof {
        lemma_parts_concat(old(v)@, w@);
    }
    let mut w = w;
    v.append(&mut w);
}

// ---------------------------------------------------------------------------
// builders
// ---------------------------------------------------------------------------

/// Markdown text.
pub fn text(content: String) -> (r: Component)
    ensures
        r@ == Part::Text(content@),
{
    Component::Text { content }
}

/// Components with an accessory beside them.
pub fn section(components: Vec<Component>, accessory: Component) -> (r: Component)
    ensures
        r@ == Part::Section(parts(components@), Box::new(accessory@)),
{
    Component::Section { components, accessory: Box::new(accessory) }
}

/// A small image.
pub fn thumbnail(url: String) -> (r: Component)
    ensures
        r@ == Part::Thumbnail(url@),
{
    Component::Thumbnail { url }
}

/// A gallery of the first ten of `urls`.
pub open spec fn gallery_part(urls: Seq<Seq<char>>) -> Part {
    Part::Gallery(
        urls.take(
            if urls.len() < MAX_GALLERY {
                urls.len() as int
            } else {
                MAX_GALLERY as int
            },
        ),
    )
}

/// A gallery of the first ten urls.
pub fn gallery(urls: &[String]) -> (r: Component)
    ensures
        r@ == gallery_part(texts(urls@)),
{
    let n = if urls.len() < MAX_GALLERY {
        urls.len()
    } else {
        MAX_GALLERY
    };
    let mut items: Vec<String> = Vec::new();
    let mut i: usize = 0;
    while i < n
        invariant
            i <= n <= urls@.len(),
            items@.len() == i,
            forall|j: int| 0 <= j < i ==> (#[trigger] items@[j])@ == urls@[j]@,
        decreases n - i,
    {
        items.push(urls[i].clone());
        i = i + 1;
    }
    assert(texts(items@) =~= texts(urls@).take(n as int));
    Component::Gallery { urls: items }
}

/// An uploaded file, shown as the attachment card Discord draws for it.
pub fn file(url: String) -> (r: Component)
    ensures
        r@ == Part::File(url@),
{
    Component::File { url }
}

/// A divider.
pub fn separator() -> (r: Component)
    ensures
        r@ == Part::Separator,
{
    Component::Separator
}

/// A box around components, without an accent colour.
pub fn container(components: Vec<Component>) -> (r: Component)
    ensures
        r@ == Part::Container(parts(components@)),
{
    Component::Container { components }
}

/// A row of buttons.
pub fn action_row(components: Vec<Component>) -> (r: Component)
    ensures
        r@ == Part::ActionRow(parts(components@)),
{
    Component::ActionRow { components }
}

/// A button showing the emoji when one is given, else the label (or `?`).
pub fn button(
    custom_id: &str,
    style: u8,
    label: Option<&str>,
    emoji: Option<&ReactionType>,
    disabled: bool,
) -> (r: Component)
    ensures
        r@ == (Part::Button {
            custom_id: custom_id@,
            style,
            disabled,
            face: match emoji {
                Some(e) => Face::Emoji(e@),
                None => Face::Label(
                    match label {
                        Some(l) => l@,
                        None => "?"@,
                    },
                ),
            },
        }),
{
    let face = match emoji {
        Some(e) => ButtonFace::Emoji(e.copy()),
        None => ButtonFace::Label(
            String::from_str(
                match label {
                    Some(l) => l,
                    None => "?",
                },
            ),
        ),
    };
    Component::Button { custom_id: String::from_str(custom_id), style, disabled, face }
}

/// The JSON body of an interaction response of the given kind, laid out with
/// components v2.
pub open spec fn interaction_payload_json(kind: u64, flags: u64, components: Seq<Part>) -> Seq<char> {
    "{\"type\":"@ + dec(kind as nat) + ",\"data\":{\"flags\":"@ + dec(flags as nat)
        + ",\"components\":"@ + json_list(components) + "}}"@
}

/// The body of an interaction response: `kind` 4 answers with a new message,
/// 7 replaces the message the interaction came from.
pub fn interaction_payload(kind: u64, flags: u64, components: &Vec<Component>) -> (r: String)
    ensures
        r@ == interaction_payload_json(kind, flags, parts(components@)),
{
    let mut out = String::from_str("{\"type\":");
    push_dec(&mut out, kind);
    out.append(",\"data\":{\"flags\":");
    push_dec(&mut out, flags);
    out.append(",\"components\":");
    let list = list_to_json(components);
    out.append(list.as_str());
    out.append("}}");
    out
}

} // verus!
