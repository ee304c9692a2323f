//! Playback on a terminal: which terminal answers, and how a frame is
//! framed for it.

use crate::strings::{contains_bytes, equals_ignore_case, equals_lowered, has_sub};
use vstd::prelude::*;
use vstd::string::StringSliceAdditionalSpecFns;

verus! {

/// The terminal program that answered a device-attributes request.
#[derive(Clone, Debug, PartialEq, Eq)]
pub enum Terminal {
    IcyTerm,
    SyncTerm,
    Unknown,
    Name(String),
}

/// What a player does with a file.
#[derive(Clone, Copy, Debug, PartialEq, Eq, Structural, Hash)]
pub enum PlayKind {
    /// The file is an animation script.
    Animation,
    /// The file is a document that is shown once.
    Document,
}

/// How a document is written out for the terminal.
#[derive(Clone, Copy, Debug, PartialEq, Eq, Structural, Hash)]
pub struct PlaybackOptions {
    pub modern_terminal_output: bool,
    pub filter_control_chars: bool,
    pub longer_terminal_output: bool,
    pub compress: bool,
}

/// The digits by which IcyTerm names itself: `IcyTerm` in decimal codes.
pub open spec fn icy_term_signature() -> Seq<u8> {
    seq![
        0x37u8, 0x33, 0x3B, 0x39, 0x39, 0x3B, 0x31, 0x32, 0x31, 0x3B, 0x38, 0x34, 0x3B, 0x31, 0x30,
        0x31, 0x3B, 0x31, 0x31, 0x34, 0x3B, 0x31, 0x30, 0x39,
    ]
}

/// The digits by which SyncTerm names itself: `CTer` in decimal codes.
pub open spec fn sync_term_signature() -> Seq<u8> {
    seq![0x36u8, 0x37, 0x3B, 0x38, 0x34, 0x3B, 0x31, 0x30, 0x31, 0x3B, 0x31, 0x31, 0x34]
}

/// The device-control string that opens a frame.
pub open spec fn dcs_open() -> Seq<u8> {
    seq![0x1Bu8, 0x50, 0x30, 0x3B, 0x31, 0x3B, 0x30, 0x21, 0x7A]
}

/// The string that closes a frame.
pub open spec fn dcs_close() -> Seq<u8> {
    seq![0x1Bu8, 0x5C, 0x1B, 0x5B, 0x30, 0x2A, 0x7A]
}

/// The sequence that resets the attributes.
pub open spec fn attribute_reset() -> Seq<u8> {
    seq![0x1Bu8, 0x5B, 0x30, 0x6D]
}

/// Line feed, carriage return.
pub open spec fn line_end() -> Seq<u8> {
    seq![0x0Au8, 0x0D]
}

/// The extension of animation scripts.
pub open spec fn animation_extension() -> Seq<u8> {
    seq![0x69u8, 0x63, 0x79, 0x61, 0x6E, 0x69, 0x6D]
}

/// What is sent for one frame whose document is `bytes`: the attribute
/// reset, the document and the line end, all three between the
/// device-control strings where frames follow one another on a terminal
/// that understands them.
pub open spec fn spec_frame_output(bytes: Seq<u8>, single_frame: bool, use_dcs: bool) -> Seq<u8> {
    if !single_frame && use_dcs {
        dcs_open() + attribute_reset() + bytes + dcs_close() + line_end()
    } else {
        attribute_reset() + bytes + line_end()
    }
}

fn append_bytes(out: &mut Vec<u8>, src: &[u8])
    ensures
        final(out)@ == old(out)@ + src@,
{
    let n: usize = src.len();
    let mut i: usize = 0;
    while i < n
        invariant
            n == src@.len(),
            i <= n,
            out@ == old(out)@ + src@.subrange(0, i as int),
        decreases n - i,
    {
        out.push(src[i]);
        proof {
            assert(src@.subrange(0, i + 1) =~= src@.subrange(0, i as int).push(src@[i as int]));
        }
        i += 1;
    }
    proof {
        assert(src@.subrange(0, n as int) =~= src@);
    }
}

impl Terminal {
    /// Whether the terminal understands the device-control framing that
    /// brackets each animation frame.
    pub open spec fn spec_use_dcs(&self) -> bool {
        *self is IcyTerm || *self is SyncTerm
    }

    /// Whether the terminal understands the device-control framing that
    /// brackets each animation frame.
    pub fn use_dcs(&self) -> (r: bool)
        ensures
            r == self.spec_use_dcs(),
    {
        match self {
            Terminal::IcyTerm | Terminal::SyncTerm => true,
            _ => false,
        }
    }

    /// The terminal that gave `response` to the device-attributes request:
    /// IcyTerm and SyncTerm by their signatures, IcyTerm first; any other
    /// by the response itself.
    pub fn detect(response: &str) -> (t: Terminal)
        ensures
            has_sub(response.spec_bytes(), icy_term_signature()) ==> t is IcyTerm,
            !has_sub(response.spec_bytes(), icy_term_signature()) && has_sub(
                response.spec_bytes(),
                sync_term_signature(),
            ) ==> t is SyncTerm,
            !has_sub(response.spec_bytes(), icy_term_signature()) && !has_sub(
                response.spec_bytes(),
                sync_term_signature(),
            ) ==> (t matches Terminal::Name(name) && name@ == response@),
    {
        let icy: Vec<u8> = vec![
            0x37u8, 0x33, 0x3B, 0x39, 0x39, 0x3B, 0x31, 0x32, 0x31, 0x3B, 0x38, 0x34, 0x3B, 0x31,
            0x30, 0x31, 0x3B, 0x31, 0x31, 0x34, 0x3B, 0x31, 0x30, 0x39,
        ];
        let sync: Vec<u8> = vec![
            0x36u8, 0x37, 0x3B, 0x38, 0x34, 0x3B, 0x31, 0x30, 0x31, 0x3B, 0x31, 0x31, 0x34,
        ];
        assert(icy@ =~= icy_term_signature());
        assert(sync@ =~= sync_term_signature());
        if contains_bytes(response.as_bytes(), icy.as_slice()) {
            Terminal::IcyTerm
        } else if contains_bytes(response.as_bytes(), sync.as_slice()) {
            Terminal::SyncTerm
        } else {
            Terminal::Name(response.to_string())
        }
    }
}

/// What a player does with a file of the given extension: `icyanim`, in
/// any mix of capitals, is an animation; anything else a document.
pub fn play_kind(extension: &str) -> (k: PlayKind)
    ensures
        k == if equals_lowered(extension.spec_bytes(), animation_extension()) {
            PlayKind::Animation
        } else {
            PlayKind::Document
        },
{
    let word: Vec<u8> = vec![0x69u8, 0x63, 0x79, 0x61, 0x6E, 0x69, 0x6D];
    assert(word@ =~= animation_extension());
    if equals_ignore_case(extension.as_bytes(), word.as_slice()) {
        PlayKind::Animation
    } else {
        PlayKind::Document
    }
}

/// How a frame is written out: control characters are filtered out, long
/// lines are allowed and nothing is compressed; UTF-8 where asked for.
pub fn playback_options(use_utf8: bool) -> (o: PlaybackOptions)
    ensures
        o == (PlaybackOptions {
            modern_terminal_output: use_utf8,
            filter_control_chars: true,
            longer_terminal_output: true,
            compress: false,
        }),
{
    PlaybackOptions {
        modern_terminal_output: use_utf8,
        filter_control_chars: true,
        longer_terminal_output: true,
        compress: false,
    }
}

/// What is sent for one frame; see `spec_frame_output`.
pub fn frame_output(bytes: &[u8], single_frame: bool, terminal: &Terminal) -> (out: Vec<u8>)
    ensures
        out@ == spec_frame_output(bytes@, single_frame, terminal.spec_use_dcs()),
{
    let framed: bool = !single_frame && terminal.use_dcs();
    let mut out: Vec<u8> = Vec::new();
    if framed {
        let open: Vec<u8> = vec![0x1Bu8, 0x50, 0x30, 0x3B, 0x31, 0x3B, 0x30, 0x21, 0x7A];
        assert(open@ =~= dcs_open());
        append_bytes(&mut out, open.as_slice());
    }
    let reset: Vec<u8> = vec![0x1Bu8, 0x5B, 0x30, 0x6D];
    assert(reset@ =~= attribute_reset());
    append_bytes(&mut out, reset.as_slice());
    append_bytes(&mut out, bytes);
    if framed {
        let close: Vec<u8> = vec![0x1Bu8, 0x5C, 0x1B, 0x5B, 0x30, 0x2A, 0x7A];
        assert(close@ =~= dcs_close());
        append_bytes(&mut out, close.as_slice());
    }
    let end: Vec<u8> = vec![0x0Au8, 0x0D];
    assert(end@ =~= line_end());
    append_bytes(&mut out, end.as_slice());
    proof {
        assert(out@ =~= spec_frame_output(bytes@, single_frame, terminal.spec_use_dcs()));
    }
    out
}

/// The frame at `index` of `count` frames, if there is one.
pub fn select_frame(index: usize, count: usize) -> (r: Option<usize>)
    ensures
        r == if index < count {
            Some(index)
        } else {
            None
        },
{
    if index < count {
        Some(index)
    } else {
        None
    }
}

} // verus!
