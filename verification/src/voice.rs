//! Re-sending a voice message: which attachment is the audio, and the
//! bodies of the upload requests.
use vstd::prelude::*;

use crate::avatar::{base64_encode, base64_standard, API};
use crate::model::Attachment;
use crate::text::{dec, push_dec};

verus! {

/// The file name a relayed voice message is uploaded under.
pub const VOICE_FILENAME: &'static str = "voice-message.ogg";

/// Message flag that makes a message a voice note.
pub const VOICE_FLAG: u64 = 8192;

pub open spec fn is_audio(a: Attachment) -> bool {
    match a.content_type {
        Some(c) => crate::starboard::starts_with(c@, "audio/"@),
        None => false,
    }
}

/// The position of the first audio attachment, if there is one.
pub fn find_audio(attachments: &[Attachment]) -> (r: Option<usize>)
    ensures
        match r {
            Some(i) => i < attachments@.len() && is_audio(attachments@[i as int]) && forall|j: int|
                0 <= j < i ==> !is_audio(#[trigger] attachments@[j]),
            None => forall|j: int| 0 <= j < attachments@.len() ==> !is_audio(#[trigger] attachments@[j]),
        },
{
    let mut i: usize = 0;
    while i < attachments.len()
        invariant
            i <= attachments@.len(),
            forall|j: int| 0 <= j < i ==> !is_audio(#[trigger] attachments@[j]),
        decreases attachments.len() - i,
    {
        let audio = match &attachments[i].content_type {
            Some(c) => crate::starboard::prefix_is(c.as_str(), "audio/"),
            None => false,
        };
        if audio {
            return Some(i);
        }
        i = i + 1;
    }
    None
}

/// The flat waveform used when the original one is unavailable.
pub open spec fn default_waveform_spec() -> Seq<u8> {
    Seq::new(64, |i: int| 64u8)
}

/// A flat waveform, for when the original one is unavailable.
pub fn default_waveform() -> (r: Vec<u8>)
    ensures
        r@ == default_waveform_spec(),
{
    let mut r: Vec<u8> = Vec::new();
    let mut i: usize = 0;
    while i < 64
        invariant
            i <= 64,
            r@ == Seq::new(i as nat, |k: int| 64u8),
        decreases 64 - i,
    {
        r.push(64u8);
        assert(r@ =~= Seq::new((i + 1) as nat, |k: int| 64u8));
        i = i + 1;
    }
    r
}

/// The waveform of the voice message as base64: the original one, or the
/// flat default.
pub fn waveform_text(waveform: Option<&[u8]>) -> (r: String)
    ensures
        r@ == base64_standard(
            match waveform {
                Some(w) => w@,
                None => default_waveform_spec(),
            },
        ),
{
    match waveform {
        Some(w) => base64_encode(w),
        None => {
            let d = default_waveform();
            base64_encode(d.as_slice())
        },
    }
}

/// The body that asks Discord for an upload slot for the audio.
pub open spec fn upload_request_spec(file_size: usize) -> Seq<char> {
    "{\"files\":[{\"filename\":\""@ + VOICE_FILENAME@ + "\",\"file_size\":"@ + dec(file_size as nat)
        + ",\"id\":\"1\"}]}"@
}

/// The body that asks Discord for an upload slot for the audio.
pub fn upload_request_body(file_size: usize) -> (r: String)
    ensures
        r@ == upload_request_spec(file_size),
{
    let mut out = String::from_str("{\"files\":[{\"filename\":\"");
    out.append(VOICE_FILENAME);
    out.append("\",\"file_size\":");
    push_dec(&mut out, file_size as u64);
    out.append(",\"id\":\"1\"}]}");
    out
}

/// The endpoint where upload slots of a channel are requested.
pub fn attachments_url(channel_id: u64) -> (r: String)
    ensures
        r@ == API@ + "/channels/"@ + dec(channel_id as nat) + "/attachments"@,
{
    let mut out = String::from_str(API);
    out.append("/channels/");
    push_dec(&mut out, channel_id);
    out.append("/attachments");
    out
}

} // verus!
