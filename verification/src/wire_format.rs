//! Layout of the scrcpy video socket, which changed incompatibly in 4.0.
//!
//! ```text
//! 3.x   [dummy 1] [codec_id 4 | width 4 | height 4]  then frames only
//! 4.x   [dummy 1] [codec_id 4]                       then frames + session meta
//! ```
//!
//! In 4.x the video size is no longer part of a one-off header. A 12-byte
//! session-meta record (`0x8000_000{0,1} | width | height`, no payload) comes
//! before every encoding session. Bit 63 of its first 8 bytes distinguishes it
//! from a frame header, which is why the frame flags moved down a bit:
//!
//! ```text
//! 3.x   bit 63 = config,        bit 62 = keyframe,  pts = low 62 bits
//! 4.x   bit 63 = session meta,  bit 62 = config,    bit 61 = keyframe,
//!                                                   pts = low 61 bits
//! ```
use vstd::prelude::*;

verus! {

/// How to read one video socket.
#[derive(Debug, Clone, Copy, PartialEq, Eq, Structural)]
pub struct VideoWireFormat {
    /// Bytes of one-off header following the dummy byte. Always starts with the
    /// 4-byte codec id; on 3.x it also carries width and height.
    pub header_len: usize,
    /// Whether width and height arrive as inline session-meta records instead.
    pub inline_session_meta: bool,
    pub config_mask: u64,
    pub key_mask: u64,
    pub pts_mask: u64,
}

/// Length of a session-meta record: `flags(4) + width(4) + height(4)`. Sized to
/// match a frame header so a reader can classify one before consuming it.
pub const SESSION_META_LEN: usize = 12;

/// Length of a frame header.
pub const FRAME_HEADER_LEN: usize = 12;

/// Marks a session-meta record in the first 8 bytes of a 4.x header.
pub const SESSION_META_BIT: u64 = 0x8000_0000_0000_0000;

impl VideoWireFormat {
    /// Whether the first 8 bytes of a header mark a session-meta record.
    pub open spec fn is_session_meta(self, word: u64) -> bool {
        self.inline_session_meta && word & SESSION_META_BIT != 0
    }

    /// Whether the first 8 bytes of a frame header mark a config packet.
    pub open spec fn is_config(self, word: u64) -> bool {
        word & self.config_mask != 0
    }

    /// Whether the first 8 bytes of a frame header mark a keyframe.
    pub open spec fn is_key(self, word: u64) -> bool {
        word & self.key_mask != 0
    }

    /// The presentation timestamp in the first 8 bytes of a frame header.
    pub open spec fn pts(self, word: u64) -> u64 {
        word & self.pts_mask
    }

    /// The first 8 bytes of a frame header with these flags and timestamp.
    pub open spec fn frame_word(self, config: bool, key: bool, pts: u64) -> u64 {
        (if config {
            self.config_mask
        } else {
            0u64
        }) | (if key {
            self.key_mask
        } else {
            0u64
        }) | pts
    }
}

/// The layout that a scrcpy of this major version speaks.
pub open spec fn wire_format_of(major_version: u32) -> VideoWireFormat {
    if major_version >= 4 {
        VideoWireFormat {
            header_len: 4,
            inline_session_meta: true,
            config_mask: 0x4000_0000_0000_0000,
            key_mask: 0x2000_0000_0000_0000,
            pts_mask: 0x1fff_ffff_ffff_ffff,
        }
    } else {
        VideoWireFormat {
            header_len: 12,
            inline_session_meta: false,
            config_mask: 0x8000_0000_0000_0000,
            key_mask: 0x4000_0000_0000_0000,
            pts_mask: 0x3fff_ffff_ffff_ffff,
        }
    }
}

/// The video socket layout for a scrcpy major version.
pub fn video_wire_format(major_version: u32) -> (r: VideoWireFormat)
    ensures
        r == wire_format_of(major_version),
{
    if major_version >= 4 {
        VideoWireFormat {
            header_len: 4,
            inline_session_meta: true,
            config_mask: 0x4000_0000_0000_0000,
            key_mask: 0x2000_0000_0000_0000,
            pts_mask: 0x1fff_ffff_ffff_ffff,
        }
    } else {
        VideoWireFormat {
            header_len: 12,
            inline_session_meta: false,
            config_mask: 0x8000_0000_0000_0000,
            key_mask: 0x4000_0000_0000_0000,
            pts_mask: 0x3fff_ffff_ffff_ffff,
        }
    }
}

// ---------------------------------------------------------------------------
// Laws
// ---------------------------------------------------------------------------

/// A session-meta record is as long as a frame header, so that a reader can
/// classify one before it consumes it. The header holds the codec id alone where
/// the size comes in such records, and codec id, width and height elsewhere.
pub proof fn law_header_and_record_sizes(major_version: u32)
    ensures
        SESSION_META_LEN == FRAME_HEADER_LEN,
        wire_format_of(major_version).inline_session_meta <==> major_version >= 4,
        wire_format_of(major_version).inline_session_meta ==> wire_format_of(
            major_version,
        ).header_len == 4,
        !wire_format_of(major_version).inline_session_meta ==> wire_format_of(
            major_version,
        ).header_len == 4 + 4 + 4,
{
}

/// In either layout the marks and the timestamp share no bit, and together with
/// the session mark of 4.x they use every bit of the word.
pub proof fn law_fields_partition_the_word(major_version: u32)
    ensures
        ({
            let w = wire_format_of(major_version);
            let session = if w.inline_session_meta {
                SESSION_META_BIT
            } else {
                0u64
            };
            &&& w.config_mask & w.key_mask == 0
            &&& w.config_mask & w.pts_mask == 0
            &&& w.key_mask & w.pts_mask == 0
            &&& session & w.config_mask == 0
            &&& session & w.key_mask == 0
            &&& session & w.pts_mask == 0
            &&& session | w.config_mask | w.key_mask | w.pts_mask == u64::MAX
        }),
{
    assert(0x4000_0000_0000_0000u64 & 0x2000_0000_0000_0000u64 == 0 && 0x4000_0000_0000_0000u64
        & 0x1fff_ffff_ffff_ffffu64 == 0 && 0x2000_0000_0000_0000u64 & 0x1fff_ffff_ffff_ffffu64 == 0
        && 0x8000_0000_0000_0000u64 & 0x4000_0000_0000_0000u64 == 0 && 0x8000_0000_0000_0000u64
        & 0x2000_0000_0000_0000u64 == 0 && 0x8000_0000_0000_0000u64 & 0x1fff_ffff_ffff_ffffu64 == 0
        && 0x8000_0000_0000_0000u64 & 0x3fff_ffff_ffff_ffffu64 == 0 && 0x4000_0000_0000_0000u64
        & 0x3fff_ffff_ffff_ffffu64 == 0 && 0u64 & 0x8000_0000_0000_0000u64 == 0 && 0u64
        & 0x4000_0000_0000_0000u64 == 0 && 0u64 & 0x3fff_ffff_ffff_ffffu64 == 0
        && 0x8000_0000_0000_0000u64 | 0x4000_0000_0000_0000u64 | 0x2000_0000_0000_0000u64
        | 0x1fff_ffff_ffff_ffffu64 == 0xffff_ffff_ffff_ffffu64 && 0u64 | 0x8000_0000_0000_0000u64
        | 0x4000_0000_0000_0000u64 | 0x3fff_ffff_ffff_ffffu64 == 0xffff_ffff_ffff_ffffu64)
        by (bit_vector);
}

/// A frame header written in one layout is read back from it unchanged, and is
/// never taken for session meta.
pub proof fn law_frame_word_round_trip(major_version: u32, config: bool, key: bool, pts: u64)
    requires
        pts <= wire_format_of(major_version).pts_mask,
    ensures
        ({
            let w = wire_format_of(major_version);
            let word = w.frame_word(config, key, pts);
            &&& w.is_config(word) == config
            &&& w.is_key(word) == key
            &&& w.pts(word) == pts
            &&& !w.is_session_meta(word)
        }),
{
    let w = wire_format_of(major_version);
    let c = if config {
        w.config_mask
    } else {
        0u64
    };
    let k = if key {
        w.key_mask
    } else {
        0u64
    };
    if major_version >= 4 {
        assert((c | k | pts) & 0x4000_0000_0000_0000u64 == c && (c | k | pts)
            & 0x2000_0000_0000_0000u64 == k && (c | k | pts) & 0x1fff_ffff_ffff_ffffu64 == pts && (c
            | k | pts) & 0x8000_0000_0000_0000u64 == 0) by (bit_vector)
            requires
                c == 0 || c == 0x4000_0000_0000_0000u64,
                k == 0 || k == 0x2000_0000_0000_0000u64,
                pts <= 0x1fff_ffff_ffff_ffffu64,
        ;
    } else {
        assert((c | k | pts) & 0x8000_0000_0000_0000u64 == c && (c | k | pts)
            & 0x4000_0000_0000_0000u64 == k && (c | k | pts) & 0x3fff_ffff_ffff_ffffu64 == pts)
            by (bit_vector)
            requires
                c == 0 || c == 0x8000_0000_0000_0000u64,
                k == 0 || k == 0x4000_0000_0000_0000u64,
                pts <= 0x3fff_ffff_ffff_ffffu64,
        ;
    }
}

/// Why the layout has to be right: read with 3.x marks, every 4.x config packet
/// looks like a keyframe, and every 4.x keyframe that is no config packet looks
/// like an ordinary frame.
pub proof fn law_4x_is_misread_as_3x(word: u64)
    requires
        !wire_format_of(4).is_session_meta(word),
    ensures
        wire_format_of(4).is_config(word) ==> wire_format_of(3).is_key(word) && !wire_format_of(
            3,
        ).is_config(word),
        wire_format_of(4).is_key(word) && !wire_format_of(4).is_config(word) ==> !wire_format_of(
            3,
        ).is_key(word) && !wire_format_of(3).is_config(word),
{
}

/// The first 8 bytes of a 4.x session-meta record (mark, flag bit and width) are
/// recognised as such, and taken neither for a config packet nor for a keyframe.
pub proof fn law_session_meta_is_no_frame(flag: u64, width: u64)
    requires
        flag <= 1,
        width <= 0xffff_ffff,
    ensures
        ({
            let w = wire_format_of(4);
            let word = ((0x8000_0000u64 | flag) << 32) | width;
            &&& w.is_session_meta(word)
            &&& !w.is_config(word)
            &&& !w.is_key(word)
        }),
{
    assert((((0x8000_0000u64 | flag) << 32) | width) & 0x8000_0000_0000_0000u64 != 0 && ((((
    0x8000_0000u64 | flag) << 32) | width) & 0x4000_0000_0000_0000u64) == 0 && ((((0x8000_0000u64
        | flag) << 32) | width) & 0x2000_0000_0000_0000u64) == 0) by (bit_vector)
        requires
            flag <= 1,
            width <= 0xffff_ffffu64,
    ;
}

/// There are two layouts: that of 4.x from version 4 on, and that of 3.x before. The
/// marks of 3.x are bits 63 and 62, those of 4.x bits 62 and 61, and the timestamp is all
/// that is below them.
pub proof fn law_two_layouts(major_version: u32, r: VideoWireFormat)
    requires
        call_ensures(video_wire_format, (major_version,), r),
    ensures
        r == wire_format_of(major_version),
        major_version >= 4 ==> r.header_len == 4 && r.inline_session_meta && r.config_mask
            == 1u64 << 62 && r.key_mask == 1u64 << 61 && r.pts_mask == (1u64 << 61) - 1,
        major_version < 4 ==> r.header_len == 12 && !r.inline_session_meta && r.config_mask
            == 1u64 << 63 && r.key_mask == 1u64 << 62 && r.pts_mask == (1u64 << 62) - 1,
{
    assert(1u64 << 61 == 0x2000_0000_0000_0000u64) by (bit_vector);
    assert(1u64 << 62 == 0x4000_0000_0000_0000u64) by (bit_vector);
    assert(1u64 << 63 == 0x8000_0000_0000_0000u64) by (bit_vector);
}

} // verus!
