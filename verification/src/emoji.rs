//! Starboard emojis: parsing what an admin types, the stored form, and matching
//! reactions against the configured list.
use vstd::prelude::*;

use crate::text::{
    all_ascii, char_is_space, chars_of, dec, find_char, first_at, has_space, is_ascii_char,
    is_space, lemma_all_ascii, lemma_first_at_unique, lemma_parse_dec,
    lemma_trim_idempotent, lemma_trim_noop, parse_u64, push_char, push_dec, read_u64, same_text, string_of,
    sub_vec, texts, trim,
};

verus! {

/// How many emojis a server can configure.
pub const MAX_EMOJIS: usize = 10;

/// A reaction as Discord reports it.
pub enum ReactionType {
    /// A server's custom emoji, known by its id.
    Custom { animated: bool, id: u64, name: Option<String> },
    /// A standard unicode emoji.
    Unicode(String),
}

/// A reaction with its text taken as character sequences.
pub enum ReactionView {
    Custom { animated: bool, id: u64, name: Option<Seq<char>> },
    Unicode(Seq<char>),
}

pub open spec fn opt_view(s: Option<String>) -> Option<Seq<char>> {
    match s {
        Some(s) => Some(s@),
        None => None,
    }
}

impl View for ReactionType {
    type V = ReactionView;

    open spec fn view(&self) -> ReactionView {
        match self {
            ReactionType::Custom { animated, id, name } => ReactionView::Custom {
                animated: *animated,
                id: *id,
                name: opt_view(*name),
            },
            ReactionType::Unicode(s) => ReactionView::Unicode(s@),
        }
    }
}

impl ReactionType {
    /// A copy of this reaction.
    pub fn copy(&self) -> (r: Self)
        ensures
            r@ == self@,
    {
        match self {
            ReactionType::Custom { animated, id, name } => ReactionType::Custom {
                animated: *animated,
                id: *id,
                name: match name {
                    Some(n) => Some(n.clone()),
                    None => None,
                },
            },
            ReactionType::Unicode(s) => ReactionType::Unicode(s.clone()),
        }
    }
}

/// What is left of a custom emoji once its brackets and animation marker are
/// taken off: `<a:rest>` and `<:rest>`, or the whole text when it has no
/// brackets (the legacy `name:id` form). `None` when the brackets hold neither
/// marker.
pub open spec fn custom_body(s: Seq<char>) -> Option<(bool, Seq<char>)> {
    if s.len() >= 2 && s[0] == '<' && s.last() == '>' {
        let inner = s.subrange(1, s.len() - 1);
        if inner.len() >= 2 && inner[0] == 'a' && inner[1] == ':' {
            Some((true, inner.skip(2)))
        } else if inner.len() >= 1 && inner[0] == ':' {
            Some((false, inner.skip(1)))
        } else {
            None
        }
    } else {
        Some((false, s))
    }
}

/// A custom emoji as `(animated, name, id)`: the body is split at its first
/// `:` into a non-empty name and a decimal id.
pub open spec fn parse_custom_spec(s: Seq<char>) -> Option<(bool, Seq<char>, u64)> {
    match custom_body(s) {
        None => None,
        Some((animated, rest)) => {
            if exists|i: int| first_at(rest, ':', i) {
                let i = choose|i: int| first_at(rest, ':', i);
                let name = rest.take(i);
                if name.len() == 0 {
                    None
                } else {
                    match parse_u64(rest.skip(i + 1)) {
                        Some(id) => Some((animated, name, id)),
                        None => None,
                    }
                }
            } else {
                None
            }
        },
    }
}

/// The stored form of a custom emoji: `<a:name:id>` or `<:name:id>`.
pub open spec fn canonical(animated: bool, name: Seq<char>, id: u64) -> Seq<char> {
    seq!['<'] + (if animated {
        seq!['a']
    } else {
        Seq::<char>::empty()
    }) + seq![':'] + name + seq![':'] + dec(id as nat) + seq!['>']
}

/// The stored form of an emoji an admin typed: the canonical custom form, or
/// the trimmed text itself when it is a short run of non-ASCII characters
/// without white space.
pub open spec fn normalize_spec(input: Seq<char>) -> Option<Seq<char>> {
    let s = trim(input);
    match parse_custom_spec(s) {
        Some((animated, name, id)) => Some(canonical(animated, name, id)),
        None => {
            if s.len() == 0 || all_ascii(s) || s.len() > 16 || has_space(s) {
                None
            } else {
                Some(s)
            }
        },
    }
}

/// Whether a reaction counts as the configured emoji: unicode by text, custom
/// by id, and a custom reaction against an entry that is not a custom emoji by
/// its name.
pub open spec fn matches_spec(reaction: ReactionView, configured: Seq<char>) -> bool {
    match reaction {
        ReactionView::Unicode(s) => s == configured,
        ReactionView::Custom { id, name, .. } => match parse_custom_spec(configured) {
            Some((_, _, cid)) => id == cid,
            None => name == Some(configured),
        },
    }
}

/// The reaction a stored emoji stands for on a button.
pub open spec fn reaction_type_spec(configured: Seq<char>) -> Option<ReactionView> {
    match parse_custom_spec(configured) {
        Some((animated, name, id)) => Some(ReactionView::Custom { animated, id, name: Some(name) }),
        None => if !all_ascii(configured) {
            Some(ReactionView::Unicode(configured))
        } else {
            None
        },
    }
}

fn parse_custom_chars(v: &[char]) -> (r: Option<(bool, String, u64)>)
    ensures
        match r {
            Some((animated, name, id)) => parse_custom_spec(v@) == Some((animated, name@, id)),
            None => parse_custom_spec(v@) is None,
        },
{
    let n = v.len();
    let ghost s = v@;
    let mut animated = false;
    let mut start: usize = 0;
    let mut end: usize = n;
    if n >= 2 && v[0] == '<' && v[n - 1] == '>' {
        let ghost inner = s.subrange(1, s.len() - 1);
        if n >= 4 && v[1] == 'a' && v[2] == ':' {
            animated = true;
            start = 3;
        } else if n >= 3 && v[1] == ':' {
            start = 2;
        } else {
            assert(custom_body(s) is None);
            return None;
        }
        end = n - 1;
        assert(custom_body(s) == Some((animated, s.subrange(start as int, end as int)))) by {
            if animated {
                assert(inner.skip(2) =~= s.subrange(start as int, end as int));
            } else {
                assert(inner.skip(1) =~= s.subrange(start as int, end as int));
            }
        }
    } else {
        assert(s.subrange(0, n as int) =~= s);
    }
    let ghost rest = s.subrange(start as int, end as int);
    assert(custom_body(s) == Some((animated, rest)));
    let i = find_char(v, ':', start, end);
    if i == end {
        assert(!exists|k: int| first_at(rest, ':', k)) by {
            if exists|k: int| first_at(rest, ':', k) {
                let k = choose|k: int| first_at(rest, ':', k);
                assert(v@[start + k] == rest[k]);
            }
        }
        return None;
    }
    let k: usize = i - start;
    assert(first_at(rest, ':', k as int)) by {
        assert forall|j: int| 0 <= j < k implies rest[j] != ':' by {
            assert(rest[j] == v@[start + j]);
        }
    }
    assert(rest.take(k as int) =~= s.subrange(start as int, i as int));
    assert(rest.skip(k + 1) =~= s.subrange(i + 1, end as int));
    proof {
        let c = choose|c: int| first_at(rest, ':', c);
        lemma_first_at_unique(rest, ':', c, k as int);
    }
    if k == 0 {
        return None;
    }
    let digits = sub_vec(v, i + 1, end);
    match read_u64(digits.as_slice()) {
        Some(id) => {
            let name = string_of(sub_vec(v, start, i).as_slice());
            Some((animated, name, id))
        },
        None => None,
    }
}

/// Reads a custom emoji as `(animated, name, id)`; accepts `<a:name:id>`,
/// `<:name:id>` and the legacy `name:id`.
pub fn parse_custom(s: &str) -> (r: Option<(bool, String, u64)>)
    ensures
        match r {
            Some((animated, name, id)) => parse_custom_spec(s@) == Some((animated, name@, id)),
            None => parse_custom_spec(s@) is None,
        },
{
    let v = chars_of(s);
    parse_custom_chars(v.as_slice())
}

/// Checks what an admin typed and returns the form that is stored: a unicode
/// emoji, or `<a:name:id>` / `<:name:id>` for a custom one.
pub fn normalize(input: &str) -> (r: Option<String>)
    ensures
        opt_view(r) == normalize_spec(input@),
{
    let all = chars_of(input);
    let s = crate::text::trimmed(all.as_slice());
    match parse_custom_chars(s.as_slice()) {
        Some((animated, name, id)) => {
            let mut out = String::new();
            push_char(&mut out, '<');
            if animated {
                push_char(&mut out, 'a');
            }
            push_char(&mut out, ':');
            out.append(name.as_str());
            push_char(&mut out, ':');
            push_dec(&mut out, id);
            push_char(&mut out, '>');
            assert(out@ =~= canonical(animated, name@, id));
            Some(out)
        },
        None => {
            let mut non_ascii = false;
            let mut spaced = false;
            let mut i: usize = 0;
            while i < s.len()
                invariant
                    i <= s@.len(),
                    non_ascii == (exists|j: int| 0 <= j < i && !is_ascii_char(#[trigger] s@[j])),
                    spaced == (exists|j: int| 0 <= j < i && is_space(#[trigger] s@[j])),
                decreases s.len() - i,
            {
                if !('\0' <= s[i] && s[i] <= '\u{7f}') {
                    non_ascii = true;
                }
                if char_is_space(s[i]) {
                    spaced = true;
                }
                i = i + 1;
            }
            if s.len() == 0 || !non_ascii || s.len() > 16 || spaced {
                None
            } else {
                Some(string_of(s.as_slice()))
            }
        },
    }
}

/// Whether a reaction is the configured emoji.
pub fn matches(reaction: &ReactionType, configured: &str) -> (r: bool)
    ensures
        r == matches_spec(reaction@, configured@),
{
    match reaction {
        ReactionType::Unicode(s) => same_text(s.as_str(), configured),
        ReactionType::Custom { id, name, .. } => match parse_custom(configured) {
            Some((_, _, cid)) => *id == cid,
            None => match name {
                Some(n) => same_text(n.as_str(), configured),
                None => false,
            },
        },
    }
}

/// `i` is the first position in `list` whose emoji the reaction matches.
pub open spec fn first_match(reaction: ReactionView, list: Seq<Seq<char>>, i: int) -> bool {
    &&& 0 <= i < list.len()
    &&& matches_spec(reaction, list[i])
    &&& forall|j: int| 0 <= j < i ==> !matches_spec(reaction, #[trigger] list[j])
}

/// The first configured emoji that the reaction matches.
pub open spec fn find_spec(reaction: ReactionView, list: Seq<Seq<char>>) -> Option<Seq<char>> {
    if exists|i: int| first_match(reaction, list, i) {
        Some(list[choose|i: int| first_match(reaction, list, i)])
    } else {
        None
    }
}

/// Returns the first configured emoji that the reaction matches.
pub fn find<'a>(reaction: &ReactionType, configured: &'a [String]) -> (r: Option<&'a String>)
    ensures
        match r {
            Some(e) => find_spec(reaction@, texts(configured@)) == Some(e@),
            None => find_spec(reaction@, texts(configured@)) is None,
        },
{
    let ghost list = texts(configured@);
    let mut i: usize = 0;
    while i < configured.len()
        invariant
            i <= configured@.len(),
            list == texts(configured@),
            forall|j: int| 0 <= j < i ==> !matches_spec(reaction@, #[trigger] list[j]),
        decreases configured.len() - i,
    {
        if matches(reaction, configured[i].as_str()) {
            proof {
                assert(first_match(reaction@, list, i as int));
                let c = choose|c: int| first_match(reaction@, list, c);
                assert(c == i) by {
                    if c < i {
                        assert(!matches_spec(reaction@, list[c]));
                    }
                    if c > i {
                        assert(!matches_spec(reaction@, list[i as int]));
                    }
                }
            }
            return Some(&configured[i]);
        }
        i = i + 1;
    }
    assert(!exists|c: int| first_match(reaction@, list, c));
    None
}

/// A stored emoji that can be drawn on a button: Discord emoji ids are never
/// zero, and a custom emoji with id zero has nothing to stand for.
pub open spec fn drawable(configured: Seq<char>) -> bool {
    match parse_custom_spec(configured) {
        Some((_, _, id)) => id != 0,
        None => true,
    }
}

/// The reaction a stored emoji shows as on a button; `None` for a legacy
/// name-only entry, which has no id to render.
pub fn reaction_type(configured: &str) -> (r: Option<ReactionType>)
    requires
        drawable(configured@),
    ensures
        match r {
            Some(t) => reaction_type_spec(configured@) == Some(t@),
            None => reaction_type_spec(configured@) is None,
        },
{
    match parse_custom(configured) {
        Some((animated, name, id)) => Some(ReactionType::Custom { animated, id, name: Some(name) }),
        None => {
            proof {
                lemma_all_ascii(configured@);
            }
            if !configured.is_ascii() {
                Some(ReactionType::Unicode(String::from_str(configured)))
            } else {
                None
            }
        },
    }
}

/// Normalizing a stored emoji gives it back unchanged: what `normalize`
/// returns is already in stored form.
pub proof fn normalize_is_idempotent(input: Seq<char>)
    requires
        normalize_spec(input) is Some,
    ensures
        normalize_spec(normalize_spec(input).unwrap()) == normalize_spec(input),
{
    let s = trim(input);
    lemma_trim_idempotent(input);
    match parse_custom_spec(s) {
        Some((animated, name, id)) => {
            let y = canonical(animated, name, id);
            lemma_parse_canonical(animated, name, id, s);
            lemma_trim_noop(y);
        },
        None => {},
    }
}

/// Stripping the brackets and marker off a canonical custom emoji leaves
/// `name:id`.
proof fn lemma_canonical_body(animated: bool, name: Seq<char>, id: u64)
    ensures
        custom_body(canonical(animated, name, id)) == Some(
            (animated, name + seq![':'] + dec(id as nat)),
        ),
{
    let y = canonical(animated, name, id);
    let rest = name + seq![':'] + dec(id as nat);
    let marker = if animated {
        seq!['a', ':']
    } else {
        seq![':']
    };
    assert(y =~= seq!['<'] + marker + rest + seq!['>']);
    let inner = y.subrange(1, y.len() - 1);
    assert(inner =~= marker + rest);
    if animated {
        assert(inner.skip(2) =~= rest);
    } else {
        assert(inner.skip(1) =~= rest);
    }
}

/// `name:digits` splits back into the name and the number.
proof fn lemma_split_name(name: Seq<char>, id: u64)
    requires
        name.len() > 0,
        forall|j: int| 0 <= j < name.len() ==> name[j] != ':',
    ensures
        ({
            let rest = name + seq![':'] + dec(id as nat);
            &&& exists|i: int| first_at(rest, ':', i)
            &&& first_at(rest, ':', name.len() as int)
            &&& rest.take(name.len() as int) == name
            &&& rest.skip(name.len() as int + 1) == dec(id as nat)
        }),
{
    let rest = name + seq![':'] + dec(id as nat);
    let k = name.len() as int;
    assert forall|j: int| 0 <= j < k implies rest[j] != ':' by {
        assert(rest[j] == name[j]);
    }
    assert(first_at(rest, ':', k));
    assert(rest.take(k) =~= name);
    assert(rest.skip(k + 1) =~= dec(id as nat));
}

/// A name read out of a custom emoji is non-empty and holds no `:`.
proof fn lemma_parsed_name(src: Seq<char>)
    requires
        parse_custom_spec(src) is Some,
    ensures
        ({
            let name = parse_custom_spec(src).unwrap().1;
            &&& name.len() > 0
            &&& forall|j: int| 0 <= j < name.len() ==> name[j] != ':'
        }),
{
    let rest0 = custom_body(src).unwrap().1;
    let i0 = choose|i: int| first_at(rest0, ':', i);
    let name = rest0.take(i0);
    assert forall|j: int| 0 <= j < name.len() implies name[j] != ':' by {
        assert(name[j] == rest0[j]);
    }
}

/// A canonical custom emoji reads back as the parts it was written from.
pub proof fn lemma_parse_canonical(animated: bool, name: Seq<char>, id: u64, src: Seq<char>)
    requires
        parse_custom_spec(src) == Some((animated, name, id)),
    ensures
        parse_custom_spec(canonical(animated, name, id)) == Some((animated, name, id)),
        canonical(animated, name, id).len() > 0,
        canonical(animated, name, id)[0] == '<',
        canonical(animated, name, id).last() == '>',
{
    lemma_parsed_name(src);
    lemma_canonical_body(animated, name, id);
    lemma_split_name(name, id);
    lemma_parse_dec(id);
    let rest = name + seq![':'] + dec(id as nat);
    let c = choose|c: int| first_at(rest, ':', c);
    lemma_first_at_unique(rest, ':', c, name.len() as int);
}

} // verus!
