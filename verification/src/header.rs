//! The header: the 127 bytes at the start of an archive.
use vstd::prelude::*;

use crate::bytes::{
    from_twos, law_eight_bytes, law_le_round_trip, le_bytes, le_limit, le_value,
    lemma_le_bytes_len, read_i32, read_u64, twos, write_i32, write_u64,
};
use crate::error::{invalid_input, refused, Error};
use crate::text::{decimal, push_decimal};

verus! {

pub const HEADER_LEN: u64 = 127;

/// The version of the format that is written and read.
pub const VERSION: u8 = 3;

/// What the header of an archive says.
#[derive(Clone, Copy, Debug, PartialEq, Eq, Structural)]
pub struct Header {
    pub root_offset: u64,
    pub root_length: u64,
    pub metadata_offset: u64,
    pub metadata_length: u64,
    pub leaf_directory_offset: u64,
    pub leaf_directory_length: u64,
    pub tile_data_offset: u64,
    pub tile_data_length: u64,
    pub addressed_tiles_count: u64,
    pub tile_entries_count: u64,
    pub tile_contents_count: u64,
    pub clustered: bool,
    pub internal_compression: u8,
    pub tile_compression: u8,
    pub tile_type: u8,
    pub min_zoom: u8,
    pub max_zoom: u8,
    pub min_lon_e7: i32,
    pub min_lat_e7: i32,
    pub max_lon_e7: i32,
    pub max_lat_e7: i32,
    pub center_zoom: u8,
    pub center_lon_e7: i32,
    pub center_lat_e7: i32,
}

/// The letters `PMTiles`.
pub open spec fn magic() -> Seq<u8> {
    seq![0x50u8, 0x4D, 0x54, 0x69, 0x6C, 0x65, 0x73]
}

/// The sections and counts, 88 bytes from byte 8.
pub open spec fn section_bytes(h: Header) -> Seq<u8> {
    le_bytes(h.root_offset as nat, 8) + le_bytes(h.root_length as nat, 8) + le_bytes(
        h.metadata_offset as nat,
        8,
    ) + le_bytes(h.metadata_length as nat, 8) + le_bytes(h.leaf_directory_offset as nat, 8)
        + le_bytes(h.leaf_directory_length as nat, 8) + le_bytes(h.tile_data_offset as nat, 8)
        + le_bytes(h.tile_data_length as nat, 8) + le_bytes(h.addressed_tiles_count as nat, 8)
        + le_bytes(h.tile_entries_count as nat, 8) + le_bytes(h.tile_contents_count as nat, 8)
}

/// The kind of the tiles, six bytes from byte 96.
pub open spec fn kind_bytes(h: Header) -> Seq<u8> {
    seq![
        if h.clustered { 1u8 } else { 0u8 },
        h.internal_compression,
        h.tile_compression,
        h.tile_type,
        h.min_zoom,
        h.max_zoom,
    ]
}

/// The area, 25 bytes from byte 102.
pub open spec fn area_bytes(h: Header) -> Seq<u8> {
    le_bytes(twos(h.min_lon_e7), 4) + le_bytes(twos(h.min_lat_e7), 4) + le_bytes(
        twos(h.max_lon_e7),
        4,
    ) + le_bytes(twos(h.max_lat_e7), 4) + seq![h.center_zoom] + le_bytes(twos(h.center_lon_e7), 4)
        + le_bytes(twos(h.center_lat_e7), 4)
}

/// The bytes of a header.
pub open spec fn header_bytes(h: Header) -> Seq<u8> {
    magic() + seq![VERSION] + section_bytes(h) + kind_bytes(h) + area_bytes(h)
}

proof fn lemma_header_len(h: Header)
    ensures
        section_bytes(h).len() == 88,
        kind_bytes(h).len() == 6,
        area_bytes(h).len() == 25,
        header_bytes(h).len() == HEADER_LEN,
{
    assert forall|v: nat, n: nat| #[trigger] le_bytes(v, n).len() == n by {
        lemma_le_bytes_len(v, n);
    }
}

impl Header {
    /// The bytes of the header.
    pub fn serialize(&self) -> (r: [u8; 127])
        ensures
            r@ == header_bytes(*self),
            r@[0] == 0x50 && r@[1] == 0x4D && r@[2] == 0x54 && r@[3] == 0x69 && r@[4] == 0x6C
                && r@[5] == 0x65 && r@[6] == 0x73,
            r@[7] == 3,
            le_value(r@.subrange(8, 16)) == self.root_offset,
            le_value(r@.subrange(16, 24)) == self.root_length,
            le_value(r@.subrange(24, 32)) == self.metadata_offset,
            le_value(r@.subrange(32, 40)) == self.metadata_length,
            le_value(r@.subrange(40, 48)) == self.leaf_directory_offset,
            le_value(r@.subrange(48, 56)) == self.leaf_directory_length,
            le_value(r@.subrange(56, 64)) == self.tile_data_offset,
            le_value(r@.subrange(64, 72)) == self.tile_data_length,
            le_value(r@.subrange(72, 80)) == self.addressed_tiles_count,
            le_value(r@.subrange(80, 88)) == self.tile_entries_count,
            le_value(r@.subrange(88, 96)) == self.tile_contents_count,
            (self.clustered <==> r@[96] == 1),
            r@[96] <= 1,
            r@[97] == self.internal_compression,
            r@[98] == self.tile_compression,
            r@[99] == self.tile_type,
            r@[100] == self.min_zoom,
            r@[101] == self.max_zoom,
            r@[118] == self.center_zoom,
            from_twos(le_value(r@.subrange(102, 106))) == self.min_lon_e7,
            from_twos(le_value(r@.subrange(106, 110))) == self.min_lat_e7,
            from_twos(le_value(r@.subrange(110, 114))) == self.max_lon_e7,
            from_twos(le_value(r@.subrange(114, 118))) == self.max_lat_e7,
            from_twos(le_value(r@.subrange(119, 123))) == self.center_lon_e7,
            from_twos(le_value(r@.subrange(123, 127))) == self.center_lat_e7,
    {
        let mut out: Vec<u8> = Vec::new();
        out.push(0x50);
        out.push(0x4D);
        out.push(0x54);
        out.push(0x69);
        out.push(0x6C);
        out.push(0x65);
        out.push(0x73);
        out.push(VERSION);
        assert(out@ =~= magic() + seq![VERSION]);
        let ghost start = out@;
        write_u64(&mut out, self.root_offset);
        write_u64(&mut out, self.root_length);
        write_u64(&mut out, self.metadata_offset);
        write_u64(&mut out, self.metadata_length);
        write_u64(&mut out, self.leaf_directory_offset);
        write_u64(&mut out, self.leaf_directory_length);
        write_u64(&mut out, self.tile_data_offset);
        write_u64(&mut out, self.tile_data_length);
        write_u64(&mut out, self.addressed_tiles_count);
        write_u64(&mut out, self.tile_entries_count);
        write_u64(&mut out, self.tile_contents_count);
        assert(out@ =~= start + section_bytes(*self));
        let ghost start = out@;
        out.push(if self.clustered { 1 } else { 0 });
        out.push(self.internal_compression);
        out.push(self.tile_compression);
        out.push(self.tile_type);
        out.push(self.min_zoom);
        out.push(self.max_zoom);
        assert(out@ =~= start + kind_bytes(*self));
        let ghost start = out@;
        write_i32(&mut out, self.min_lon_e7);
        write_i32(&mut out, self.min_lat_e7);
        write_i32(&mut out, self.max_lon_e7);
        write_i32(&mut out, self.max_lat_e7);
        out.push(self.center_zoom);
        write_i32(&mut out, self.center_lon_e7);
        write_i32(&mut out, self.center_lat_e7);
        assert(out@ =~= start + area_bytes(*self));
        proof {
            lemma_header_len(*self);
        }
        let mut r: [u8; 127] = [0u8; 127];
        let mut i: usize = 0;
        while i < 127
            invariant
                i <= 127,
                out@.len() == 127,
                r@.len() == 127,
                forall|k: int| 0 <= k < i ==> r@[k] == out@[k],
            decreases 127 - i,
        {
            r[i] = out[i];
            i = i + 1;
        }
        assert(r@ =~= out@);
        proof {
            law_header_fields_stand_in_place(*self);
        }
        r
    }
}

/// What was read from the header of an archive.
#[derive(Clone, Copy, Debug, PartialEq, Eq, Structural)]
pub struct ParsedHeader {
    pub version: u8,
    pub fields: Header,
}

/// The eight bytes from `offset` as a number.
pub open spec fn u64_at(b: Seq<u8>, offset: int) -> u64 {
    le_value(b.subrange(offset, offset + 8)) as u64
}

/// The four bytes from `offset` as a signed number.
pub open spec fn i32_at(b: Seq<u8>, offset: int) -> i32 {
    from_twos(le_value(b.subrange(offset, offset + 4)))
}

/// The fields that the bytes of a header hold.
pub open spec fn fields_of(b: Seq<u8>) -> Header {
    Header {
        root_offset: u64_at(b, 8),
        root_length: u64_at(b, 16),
        metadata_offset: u64_at(b, 24),
        metadata_length: u64_at(b, 32),
        leaf_directory_offset: u64_at(b, 40),
        leaf_directory_length: u64_at(b, 48),
        tile_data_offset: u64_at(b, 56),
        tile_data_length: u64_at(b, 64),
        addressed_tiles_count: u64_at(b, 72),
        tile_entries_count: u64_at(b, 80),
        tile_contents_count: u64_at(b, 88),
        clustered: b[96] == 1,
        internal_compression: b[97],
        tile_compression: b[98],
        tile_type: b[99],
        min_zoom: b[100],
        max_zoom: b[101],
        min_lon_e7: i32_at(b, 102),
        min_lat_e7: i32_at(b, 106),
        max_lon_e7: i32_at(b, 110),
        max_lat_e7: i32_at(b, 114),
        center_zoom: b[118],
        center_lon_e7: i32_at(b, 119),
        center_lat_e7: i32_at(b, 123),
    }
}

impl ParsedHeader {
    /// Reads a header. Other files and other versions of the format are refused.
    pub fn parse(buf: &[u8; 127]) -> (r: Result<ParsedHeader, Error>)
        ensures
            buf@.take(7) != magic() ==> refused(r, "not a PMTiles archive"@),
            buf@.take(7) == magic() && buf@[7] != VERSION ==> refused(
                r,
                "unsupported PMTiles version "@ + decimal(buf@[7] as nat),
            ),
            buf@.take(7) == magic() && buf@[7] == VERSION ==> r == Ok::<ParsedHeader, Error>(
                ParsedHeader { version: VERSION, fields: fields_of(buf@) },
            ),
            r matches Ok(p) ==> {
                &&& p.version == 3
                &&& le_value(buf@.subrange(8, 16)) == p.fields.root_offset
                &&& le_value(buf@.subrange(16, 24)) == p.fields.root_length
                &&& le_value(buf@.subrange(24, 32)) == p.fields.metadata_offset
                &&& le_value(buf@.subrange(32, 40)) == p.fields.metadata_length
                &&& le_value(buf@.subrange(40, 48)) == p.fields.leaf_directory_offset
                &&& le_value(buf@.subrange(48, 56)) == p.fields.leaf_directory_length
                &&& le_value(buf@.subrange(56, 64)) == p.fields.tile_data_offset
                &&& le_value(buf@.subrange(64, 72)) == p.fields.tile_data_length
                &&& le_value(buf@.subrange(72, 80)) == p.fields.addressed_tiles_count
                &&& le_value(buf@.subrange(80, 88)) == p.fields.tile_entries_count
                &&& le_value(buf@.subrange(88, 96)) == p.fields.tile_contents_count
                &&& p.fields.clustered <==> buf@[96] == 1
                &&& buf@[97] == p.fields.internal_compression
                &&& buf@[98] == p.fields.tile_compression
                &&& buf@[99] == p.fields.tile_type
                &&& buf@[100] == p.fields.min_zoom
                &&& buf@[101] == p.fields.max_zoom
                &&& buf@[118] == p.fields.center_zoom
                &&& from_twos(le_value(buf@.subrange(102, 106))) == p.fields.min_lon_e7
                &&& from_twos(le_value(buf@.subrange(106, 110))) == p.fields.min_lat_e7
                &&& from_twos(le_value(buf@.subrange(110, 114))) == p.fields.max_lon_e7
                &&& from_twos(le_value(buf@.subrange(114, 118))) == p.fields.max_lat_e7
                &&& from_twos(le_value(buf@.subrange(119, 123))) == p.fields.center_lon_e7
                &&& from_twos(le_value(buf@.subrange(123, 127))) == p.fields.center_lat_e7
            },
    {
        if !(buf[0] == 0x50 && buf[1] == 0x4D && buf[2] == 0x54 && buf[3] == 0x69 && buf[4] == 0x6C
            && buf[5] == 0x65 && buf[6] == 0x73) {
            proof {
                let t = buf@.take(7);
                assert(t[0] == buf@[0] && t[1] == buf@[1] && t[2] == buf@[2] && t[3] == buf@[3]
                    && t[4] == buf@[4] && t[5] == buf@[5] && t[6] == buf@[6]);
            }
            return Err(invalid_input("not a PMTiles archive"));
        }
        assert(buf@.take(7) =~= magic());
        if buf[7] != VERSION {
            let mut message: String = "unsupported PMTiles version ".to_owned();
            push_decimal(&mut message, buf[7] as u64);
            return Err(invalid_input(message.as_str()));
        }
        proof {
            law_header_fields_are_read_in_place(buf@);
        }
        let b: &[u8] = buf.as_slice();
        Ok(
            ParsedHeader {
                version: buf[7],
                fields: Header {
                    root_offset: read_u64(b, 8),
                    root_length: read_u64(b, 16),
                    metadata_offset: read_u64(b, 24),
                    metadata_length: read_u64(b, 32),
                    leaf_directory_offset: read_u64(b, 40),
                    leaf_directory_length: read_u64(b, 48),
                    tile_data_offset: read_u64(b, 56),
                    tile_data_length: read_u64(b, 64),
                    addressed_tiles_count: read_u64(b, 72),
                    tile_entries_count: read_u64(b, 80),
                    tile_contents_count: read_u64(b, 88),
                    clustered: buf[96] == 1,
                    internal_compression: buf[97],
                    tile_compression: buf[98],
                    tile_type: buf[99],
                    min_zoom: buf[100],
                    max_zoom: buf[101],
                    min_lon_e7: read_i32(b, 102),
                    min_lat_e7: read_i32(b, 106),
                    max_lon_e7: read_i32(b, 110),
                    max_lat_e7: read_i32(b, 114),
                    center_zoom: buf[118],
                    center_lon_e7: read_i32(b, 119),
                    center_lat_e7: read_i32(b, 123),
                },
            },
        )
    }
}

proof fn lemma_u64_restored(v: u64)
    ensures
        le_value(le_bytes(v as nat, 8)) == v,
{
    assert(le_limit(8) == 0x1_0000_0000_0000_0000) by {
        reveal_with_fuel(le_limit, 9);
    }
    law_le_round_trip(v as nat, 8);
}

proof fn lemma_i32_restored(v: i32)
    ensures
        from_twos(le_value(le_bytes(twos(v), 4))) == v,
{
    assert(le_limit(4) == 0x1_0000_0000) by {
        reveal_with_fuel(le_limit, 5);
    }
    law_le_round_trip(twos(v), 4);
}

/// Reading a header gives back what was written.
pub proof fn law_header_round_trip(h: Header)
    ensures
        header_bytes(h).len() == HEADER_LEN,
        header_bytes(h).take(7) == magic(),
        header_bytes(h)[7] == VERSION,
        fields_of(header_bytes(h)) == h,
{
    let b = header_bytes(h);
    lemma_header_len(h);
    assert(b.take(7) =~= magic());
    assert forall|v: nat, n: nat| #[trigger] le_bytes(v, n).len() == n by {
        lemma_le_bytes_len(v, n);
    }
    assert forall|v: u64| le_value(#[trigger] le_bytes(v as nat, 8)) == v by {
        lemma_u64_restored(v);
    }
    assert forall|v: i32| from_twos(le_value(#[trigger] le_bytes(twos(v), 4))) == v by {
        lemma_i32_restored(v);
    }
    assert(b.subrange(8, 16) =~= le_bytes(h.root_offset as nat, 8));
    assert(b.subrange(16, 24) =~= le_bytes(h.root_length as nat, 8));
    assert(b.subrange(24, 32) =~= le_bytes(h.metadata_offset as nat, 8));
    assert(b.subrange(32, 40) =~= le_bytes(h.metadata_length as nat, 8));
    assert(b.subrange(40, 48) =~= le_bytes(h.leaf_directory_offset as nat, 8));
    assert(b.subrange(48, 56) =~= le_bytes(h.leaf_directory_length as nat, 8));
    assert(b.subrange(56, 64) =~= le_bytes(h.tile_data_offset as nat, 8));
    assert(b.subrange(64, 72) =~= le_bytes(h.tile_data_length as nat, 8));
    assert(b.subrange(72, 80) =~= le_bytes(h.addressed_tiles_count as nat, 8));
    assert(b.subrange(80, 88) =~= le_bytes(h.tile_entries_count as nat, 8));
    assert(b.subrange(88, 96) =~= le_bytes(h.tile_contents_count as nat, 8));
    assert(b.subrange(102, 106) =~= le_bytes(twos(h.min_lon_e7), 4));
    assert(b.subrange(106, 110) =~= le_bytes(twos(h.min_lat_e7), 4));
    assert(b.subrange(110, 114) =~= le_bytes(twos(h.max_lon_e7), 4));
    assert(b.subrange(114, 118) =~= le_bytes(twos(h.max_lat_e7), 4));
    assert(b.subrange(119, 123) =~= le_bytes(twos(h.center_lon_e7), 4));
    assert(b.subrange(123, 127) =~= le_bytes(twos(h.center_lat_e7), 4));
}

/// The letters `PMTiles` and the version stand at the start of every header, and each field
/// stands at its own place behind them.
pub proof fn law_header_fields_stand_in_place(h: Header)
    ensures
        ({
            let b = header_bytes(h);
            &&& b.len() == 127
            &&& b[0] == 0x50 && b[1] == 0x4D && b[2] == 0x54 && b[3] == 0x69
            &&& b[4] == 0x6C && b[5] == 0x65 && b[6] == 0x73
            &&& b[7] == 3
            &&& b[96] <= 1
            &&& le_value(b.subrange(8, 16)) == h.root_offset
            &&& le_value(b.subrange(16, 24)) == h.root_length
            &&& le_value(b.subrange(24, 32)) == h.metadata_offset
            &&& le_value(b.subrange(32, 40)) == h.metadata_length
            &&& le_value(b.subrange(40, 48)) == h.leaf_directory_offset
            &&& le_value(b.subrange(48, 56)) == h.leaf_directory_length
            &&& le_value(b.subrange(56, 64)) == h.tile_data_offset
            &&& le_value(b.subrange(64, 72)) == h.tile_data_length
            &&& le_value(b.subrange(72, 80)) == h.addressed_tiles_count
            &&& le_value(b.subrange(80, 88)) == h.tile_entries_count
            &&& le_value(b.subrange(88, 96)) == h.tile_contents_count
            &&& h.clustered <==> b[96] == 1
            &&& b[97] == h.internal_compression
            &&& b[98] == h.tile_compression
            &&& b[99] == h.tile_type
            &&& b[100] == h.min_zoom
            &&& b[101] == h.max_zoom
            &&& b[118] == h.center_zoom
            &&& from_twos(le_value(b.subrange(102, 106))) == h.min_lon_e7
            &&& from_twos(le_value(b.subrange(106, 110))) == h.min_lat_e7
            &&& from_twos(le_value(b.subrange(110, 114))) == h.max_lon_e7
            &&& from_twos(le_value(b.subrange(114, 118))) == h.max_lat_e7
            &&& from_twos(le_value(b.subrange(119, 123))) == h.center_lon_e7
            &&& from_twos(le_value(b.subrange(123, 127))) == h.center_lat_e7
        }),
{
    let b = header_bytes(h);
    law_header_round_trip(h);
    lemma_header_len(h);
    law_header_fields_are_read_in_place(b);
    assert(b.take(7)[0] == b[0] && b.take(7)[1] == b[1] && b.take(7)[2] == b[2] && b.take(7)[3]
        == b[3]);
    assert(b.take(7)[4] == b[4] && b.take(7)[5] == b[5] && b.take(7)[6] == b[6]);
    assert(b[96] == kind_bytes(h)[0]);
}

/// Each field is read from its own place.
pub proof fn law_header_fields_are_read_in_place(b: Seq<u8>)
    requires
        b.len() == 127,
    ensures
        ({
            let h = fields_of(b);
            &&& le_value(b.subrange(8, 16)) == h.root_offset
            &&& le_value(b.subrange(16, 24)) == h.root_length
            &&& le_value(b.subrange(24, 32)) == h.metadata_offset
            &&& le_value(b.subrange(32, 40)) == h.metadata_length
            &&& le_value(b.subrange(40, 48)) == h.leaf_directory_offset
            &&& le_value(b.subrange(48, 56)) == h.leaf_directory_length
            &&& le_value(b.subrange(56, 64)) == h.tile_data_offset
            &&& le_value(b.subrange(64, 72)) == h.tile_data_length
            &&& le_value(b.subrange(72, 80)) == h.addressed_tiles_count
            &&& le_value(b.subrange(80, 88)) == h.tile_entries_count
            &&& le_value(b.subrange(88, 96)) == h.tile_contents_count
            &&& h.clustered <==> b[96] == 1
            &&& b[97] == h.internal_compression
            &&& b[98] == h.tile_compression
            &&& b[99] == h.tile_type
            &&& b[100] == h.min_zoom
            &&& b[101] == h.max_zoom
            &&& b[118] == h.center_zoom
            &&& from_twos(le_value(b.subrange(102, 106))) == h.min_lon_e7
            &&& from_twos(le_value(b.subrange(106, 110))) == h.min_lat_e7
            &&& from_twos(le_value(b.subrange(110, 114))) == h.max_lon_e7
            &&& from_twos(le_value(b.subrange(114, 118))) == h.max_lat_e7
            &&& from_twos(le_value(b.subrange(119, 123))) == h.center_lon_e7
            &&& from_twos(le_value(b.subrange(123, 127))) == h.center_lat_e7
        }),
{
    assert forall|k: int| 0 <= k <= 119 implies le_value(#[trigger] b.subrange(k, k + 8))
        <= u64::MAX by {
        law_eight_bytes(b.subrange(k, k + 8));
    }
}

} // verus!
