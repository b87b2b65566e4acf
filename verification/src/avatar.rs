//! Avatars shown inline: a user's avatar is uploaded once as an app emoji
//! (app emojis are the only images that render inside text, and they work
//! in every server) and then referred to by its mention.
use base64::Engine as _;
use vstd::prelude::*;

use crate::components::{json_str, write_str};
use crate::text::{dec, parse_u64, push_dec, read_u64, chars_of};

verus! {

/// An app can own 2000 emojis; uploads stop short of the wall.
pub const MAX_AVATARS: usize = 1900;

/// Discord rejects emoji images larger than this many bytes.
pub const MAX_BYTES: usize = 256 * 1024;

/// Avatars are fetched at emoji resolution.
pub const SIZE: u32 = 128;

/// The API all requests go to.
pub const API: &'static str = "https://discord.com/api/v10";

/// What `base64::engine::general_purpose::STANDARD.encode` makes of the bytes:
/// standard base64 with padding.
pub uninterp spec fn base64_standard(bytes: Seq<u8>) -> Seq<char>;

/// `base64::engine::general_purpose::STANDARD.encode`: the standard base64
/// text of the bytes, with padding.
#[verifier::external_body]
pub(crate) fn base64_encode(bytes: &[u8]) -> (r: String)
    ensures
        r@ == base64_standard(bytes@),
{
    base64::engine::general_purpose::STANDARD.encode(bytes)
}

/// Where a user's avatar is fetched: always the static PNG, even for an
/// animated avatar, since a gif has only on/off transparency and a circle
/// cut out of one has a staircase for an edge.
pub open spec fn avatar_url_spec(user_id: u64, hash: Seq<char>) -> Seq<char> {
    "https://cdn.discordapp.com/avatars/"@ + dec(user_id as nat) + "/"@ + hash + ".png?size="@ + dec(
        SIZE as nat,
    )
}

/// The url of a user's avatar at emoji resolution.
pub fn avatar_url(user_id: u64, hash: &str) -> (r: String)
    ensures
        r@ == avatar_url_spec(user_id, hash@),
{
    let mut out = String::from_str("https://cdn.discordapp.com/avatars/");
    push_dec(&mut out, user_id);
    out.append("/");
    out.append(hash);
    out.append(".png?size=");
    push_dec(&mut out, SIZE as u64);
    out
}

/// The name of a user's avatar emoji: `av` and the user id.
pub open spec fn emoji_name(user_id: u64) -> Seq<char> {
    "av"@ + dec(user_id as nat)
}

/// The body that creates a user's avatar emoji from base64 PNG data.
pub open spec fn upload_body_spec(user_id: u64, encoded: Seq<char>) -> Seq<char> {
    "{\"name\":"@ + json_str(emoji_name(user_id)) + ",\"image\":"@ + json_str(
        "data:image/png;base64,"@ + encoded,
    ) + "}"@
}

/// The body that creates a user's avatar emoji, given the image as base64.
pub fn emoji_upload_body(user_id: u64, encoded: &str) -> (r: String)
    ensures
        r@ == upload_body_spec(user_id, encoded@),
{
    let mut name = String::from_str("av");
    push_dec(&mut name, user_id);
    let mut image = String::from_str("data:image/png;base64,");
    image.append(encoded);
    let mut out = String::from_str("{\"name\":");
    write_str(&mut out, name.as_str());
    out.append(",\"image\":");
    write_str(&mut out, image.as_str());
    out.append("}");
    out
}

/// The body that uploads a user's circular avatar PNG as an emoji; `None`
/// when the image is larger than Discord accepts.
pub fn avatar_upload_body(user_id: u64, png: &[u8]) -> (r: Option<String>)
    ensures
        png@.len() > MAX_BYTES ==> r is None,
        png@.len() <= MAX_BYTES ==> (r matches Some(b) && b@ == upload_body_spec(
            user_id,
            base64_standard(png@),
        )),
{
    if png.len() > MAX_BYTES {
        return None;
    }
    let encoded = base64_encode(png);
    Some(emoji_upload_body(user_id, encoded.as_str()))
}

/// Reads the id of a created emoji, as Discord sends it (a decimal string).
pub fn emoji_id_of(id: &str) -> (r: Option<u64>)
    ensures
        r == parse_u64(id@),
{
    let v = chars_of(id);
    read_u64(v.as_slice())
}

/// The endpoint of the app's emojis.
pub open spec fn emojis_url_spec(app_id: u64) -> Seq<char> {
    API@ + "/applications/"@ + dec(app_id as nat) + "/emojis"@
}

/// The endpoint where the app's emojis are created.
pub fn emojis_url(app_id: u64) -> (r: String)
    ensures
        r@ == emojis_url_spec(app_id),
{
    let mut out = String::from_str(API);
    out.append("/applications/");
    push_dec(&mut out, app_id);
    out.append("/emojis");
    out
}

/// The endpoint of one of the app's emojis, where it is deleted.
pub fn emoji_url(app_id: u64, emoji_id: u64) -> (r: String)
    ensures
        r@ == emojis_url_spec(app_id) + "/"@ + dec(emoji_id as nat),
{
    let mut out = emojis_url(app_id);
    out.append("/");
    push_dec(&mut out, emoji_id);
    out
}

} // verus!
