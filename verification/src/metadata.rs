//! The metadata of an archive, as JSON.
use vstd::prelude::*;
use vstd::string::StringExecFns;

use crate::commands::{text_in, PackOptions};
use crate::options::{RasterFormat, RasterOptions};
use crate::text::{decimal, decimal_text};

verus! {

/// How a character stands in a JSON text.
pub open spec fn escaped_char(c: char) -> Seq<char> {
    if c == '"' {
        seq!['\\', '"']
    } else if c == '\\' {
        seq!['\\', '\\']
    } else if c == '\n' {
        seq!['\\', 'n']
    } else if c == '\r' {
        seq!['\\', 'r']
    } else if c == '\t' {
        seq!['\\', 't']
    } else {
        seq![c]
    }
}

/// How a text stands in JSON, without the quotes around it.
pub open spec fn escaped(s: Seq<char>) -> Seq<char>
    decreases s.len(),
{
    if s.len() == 0 {
        Seq::empty()
    } else {
        escaped(s.drop_last()) + escaped_char(s.last())
    }
}

/// How a text stands in JSON.
pub fn json_escape(value: &str) -> (r: String)
    ensures
        r@ == escaped(value@),
{
    let mut out = String::new();
    assert(value@.take(0) =~= Seq::empty());
    for ch in it: value.chars()
        invariant
            it.seq() == value@,
            out@ == escaped(value@.take(it.index())),
    {
        let ghost k = it.index();
        let ghost before = out@;
        if ch == '"' {
            out.push('\\');
            out.push('"');
        } else if ch == '\\' {
            out.push('\\');
            out.push('\\');
        } else if ch == '\n' {
            out.push('\\');
            out.push('n');
        } else if ch == '\r' {
            out.push('\\');
            out.push('r');
        } else if ch == '\t' {
            out.push('\\');
            out.push('t');
        } else {
            out.push(ch);
        }
        assert(value@.take(k + 1).drop_last() =~= value@.take(k));
        assert(out@ =~= before + escaped_char(ch));
    }
    assert(value@.take(value@.len() as int) =~= value@);
    out
}

/// The character that stands behind a backslash in JSON.
pub open spec fn unescaped_char(c: char) -> Option<char> {
    if c == '"' || c == '\\' {
        Some(c)
    } else if c == 'n' {
        Some('\n')
    } else if c == 'r' {
        Some('\r')
    } else if c == 't' {
        Some('\t')
    } else {
        None
    }
}

/// The text that stands in JSON between two quotes; none where a quote or a control character
/// that JSON does not take stands among them.
pub open spec fn unescaped(s: Seq<char>) -> Option<Seq<char>>
    decreases s.len(),
{
    if s.len() == 0 {
        Some(Seq::empty())
    } else if s[0] == '"' || s[0] == '\n' || s[0] == '\r' || s[0] == '\t' {
        None
    } else if s[0] == '\\' {
        if s.len() == 1 {
            None
        } else {
            match (unescaped_char(s[1]), unescaped(s.skip(2))) {
                (Some(c), Some(rest)) => Some(seq![c] + rest),
                _ => None,
            }
        }
    } else {
        match unescaped(s.skip(1)) {
            Some(rest) => Some(seq![s[0]] + rest),
            None => None,
        }
    }
}

proof fn lemma_escaped_front(s: Seq<char>)
    requires
        s.len() > 0,
    ensures
        escaped(s) == escaped_char(s[0]) + escaped(s.drop_first()),
    decreases s.len(),
{
    if s.len() == 1 {
        assert(s.drop_last() =~= Seq::empty());
        assert(s.drop_first() =~= Seq::empty());
        assert(escaped(s) =~= escaped_char(s[0]) + escaped(s.drop_first()));
    } else {
        lemma_escaped_front(s.drop_last());
        assert(s.drop_last().drop_first() =~= s.drop_first().drop_last());
        assert(escaped(s) =~= escaped_char(s[0]) + escaped(s.drop_first()));
    }
}

/// A text is read back from its JSON, whatever its characters.
pub proof fn law_escape_round_trip(s: Seq<char>)
    ensures
        unescaped(escaped(s)) == Some(s),
    decreases s.len(),
{
    if s.len() > 0 {
        let rest = s.drop_first();
        let first = escaped_char(s[0]);
        let whole = escaped(s);
        lemma_escaped_front(s);
        law_escape_round_trip(rest);
        assert(whole.skip(first.len() as int) =~= escaped(rest));
        assert(seq![s[0]] + rest =~= s);
        assert(whole[0] == first[0]);
        if first.len() == 2 {
            assert(whole[1] == first[1]);
        }
    } else {
        assert(s =~= Seq::empty());
    }
}

/// The texts of the numbers that describe an area.
#[derive(Debug)]
pub struct AreaTexts {
    pub west: String,
    pub south: String,
    pub east: String,
    pub north: String,
    pub center_lon: String,
    pub center_lat: String,
}

/// The JSON text of the metadata.
pub open spec fn metadata_text(
    name: Seq<char>,
    description: Seq<char>,
    attribution: Seq<char>,
    format: Seq<char>,
    tile_size: nat,
    min_zoom: nat,
    max_zoom: nat,
    area: AreaTexts,
) -> Seq<char> {
    "{\"name\":\""@ + escaped(name) + "\",\"description\":\""@ + escaped(description)
        + "\",\"attribution\":\""@ + escaped(attribution)
        + "\",\"type\":\"overlay\",\"version\":\"1.0.0\",\"format\":\""@ + format
        + "\",\"tileSize\":"@ + decimal(tile_size) + ",\"minzoom\":"@ + decimal(min_zoom)
        + ",\"maxzoom\":"@ + decimal(max_zoom) + ",\"bounds\":["@ + area.west@ + ","@
        + area.south@ + ","@ + area.east@ + ","@ + area.north@ + "],\"center\":["@
        + area.center_lon@ + ","@ + area.center_lat@ + ","@ + decimal(min_zoom) + "]}"@
}

fn metadata_json(
    name: &str,
    description: &str,
    attribution: &str,
    format: &str,
    tile_size: u32,
    min_zoom: u8,
    max_zoom: u8,
    area: &AreaTexts,
) -> (r: String)
    ensures
        r@ == metadata_text(
            name@,
            description@,
            attribution@,
            format@,
            tile_size as nat,
            min_zoom as nat,
            max_zoom as nat,
            *area,
        ),
{
    let mut out = "{\"name\":\"".to_owned();
    out.append(json_escape(name).as_str());
    out.append("\",\"description\":\"");
    out.append(json_escape(description).as_str());
    out.append("\",\"attribution\":\"");
    out.append(json_escape(attribution).as_str());
    out.append("\",\"type\":\"overlay\",\"version\":\"1.0.0\",\"format\":\"");
    out.append(format);
    out.append("\",\"tileSize\":");
    out.append(decimal_text(tile_size as u64).as_str());
    out.append(",\"minzoom\":");
    out.append(decimal_text(min_zoom as u64).as_str());
    out.append(",\"maxzoom\":");
    out.append(decimal_text(max_zoom as u64).as_str());
    out.append(",\"bounds\":[");
    out.append(area.west.as_str());
    out.append(",");
    out.append(area.south.as_str());
    out.append(",");
    out.append(area.east.as_str());
    out.append(",");
    out.append(area.north.as_str());
    out.append("],\"center\":[");
    out.append(area.center_lon.as_str());
    out.append(",");
    out.append(area.center_lat.as_str());
    out.append(",");
    out.append(decimal_text(min_zoom as u64).as_str());
    out.append("]}");
    out
}

/// The text, or another where there is none.
pub open spec fn text_or(v: Option<Seq<char>>, default: Seq<char>) -> Seq<char> {
    match v {
        Some(s) => s,
        None => default,
    }
}

fn text_or_default(v: &Option<String>, default: &str) -> (r: String)
    ensures
        r@ == text_or(text_in(*v), default@),
{
    match v {
        Some(s) => s.clone(),
        None => default.to_owned(),
    }
}

/// The name of a packed archive: the one that was given, that of the directory, or a general one.
pub open spec fn pack_name(opts: PackOptions, dir_name: Option<String>) -> Seq<char> {
    text_or(text_in(opts.name), text_or(text_in(dir_name), "pmtiler archive"@))
}

/// The metadata of a packed archive.
pub open spec fn pack_metadata(
    opts: PackOptions,
    dir_name: Option<String>,
    format: Seq<char>,
    min_zoom: nat,
    max_zoom: nat,
    area: AreaTexts,
) -> Seq<char> {
    metadata_text(
        pack_name(opts, dir_name),
        text_or(text_in(opts.description), pack_name(opts, dir_name)),
        text_or(text_in(opts.attribution), ""@),
        format,
        opts.tile_size as nat,
        min_zoom,
        max_zoom,
        area,
    )
}

/// The metadata of a rendered archive.
pub open spec fn raster_metadata(
    opts: RasterOptions,
    file_name: Option<String>,
    area: AreaTexts,
) -> Seq<char> {
    metadata_text(
        text_or(text_in(file_name), "pmtiler raster"@),
        opts.input@,
        ""@,
        opts.format.name(),
        opts.tile_size as nat,
        opts.min_zoom as nat,
        opts.max_zoom as nat,
        area,
    )
}

/// The metadata of a packed archive describe it as the user did, and else by its name. Without an
/// attribution that of the metadata is empty.
pub proof fn law_pack_metadata(
    opts: PackOptions,
    dir_name: Option<String>,
    format: Seq<char>,
    min_zoom: nat,
    max_zoom: nat,
    area: AreaTexts,
)
    ensures
        ({
            let name = if opts.name is Some {
                opts.name->0@
            } else if dir_name is Some {
                dir_name->0@
            } else {
                "pmtiler archive"@
            };
            let description = if opts.description is Some {
                opts.description->0@
            } else {
                name
            };
            let attribution = if opts.attribution is Some {
                opts.attribution->0@
            } else {
                ""@
            };
            pack_metadata(opts, dir_name, format, min_zoom, max_zoom, area) == metadata_text(
                name,
                description,
                attribution,
                format,
                opts.tile_size as nat,
                min_zoom,
                max_zoom,
                area,
            )
        }),
{
}

/// The metadata of a rendered archive name the archive after its file and describe it by the path
/// of its source.
pub proof fn law_raster_metadata(opts: RasterOptions, file_name: Option<String>, area: AreaTexts)
    ensures
        raster_metadata(opts, file_name, area) == metadata_text(
            if file_name is Some {
                file_name->0@
            } else {
                "pmtiler raster"@
            },
            opts.input@,
            ""@,
            match opts.format {
                RasterFormat::Png => "png"@,
                RasterFormat::Jpeg => "jpg"@,
                RasterFormat::Webp => "webp"@,
            },
            opts.tile_size as nat,
            opts.min_zoom as nat,
            opts.max_zoom as nat,
            area,
        ),
{
}

/// The metadata of a packed archive. `dir_name` is the last part of the path of the tiles.
pub fn build_pack_metadata(
    opts: &PackOptions,
    dir_name: &Option<String>,
    format: &str,
    min_zoom: u8,
    max_zoom: u8,
    area: &AreaTexts,
) -> (r: String)
    ensures
        r@ == pack_metadata(
            *opts,
            *dir_name,
            format@,
            min_zoom as nat,
            max_zoom as nat,
            *area,
        ),
        r@ == metadata_text(
            pack_name(*opts, *dir_name),
            text_or(text_in(opts.description), pack_name(*opts, *dir_name)),
            text_or(text_in(opts.attribution), ""@),
            format@,
            opts.tile_size as nat,
            min_zoom as nat,
            max_zoom as nat,
            *area,
        ),
{
    let general = text_or_default(dir_name, "pmtiler archive");
    let name = text_or_default(&opts.name, general.as_str());
    let description = text_or_default(&opts.description, name.as_str());
    let attribution = text_or_default(&opts.attribution, "");
    metadata_json(
        name.as_str(),
        description.as_str(),
        attribution.as_str(),
        format,
        opts.tile_size,
        min_zoom,
        max_zoom,
        area,
    )
}

/// The metadata of a rendered archive. `file_name` is the last part of the path of the archive.
pub fn build_raster_metadata(
    opts: &RasterOptions,
    file_name: &Option<String>,
    area: &AreaTexts,
) -> (r: String)
    ensures
        r@ == raster_metadata(*opts, *file_name, *area),
        r@ == metadata_text(
            text_or(text_in(*file_name), "pmtiler raster"@),
            opts.input@,
            ""@,
            opts.format.name(),
            opts.tile_size as nat,
            opts.min_zoom as nat,
            opts.max_zoom as nat,
            *area,
        ),
{
    let name = text_or_default(file_name, "pmtiler raster");
    metadata_json(
        name.as_str(),
        opts.input.as_str(),
        "",
        opts.format.as_str(),
        opts.tile_size,
        opts.min_zoom,
        opts.max_zoom,
        area,
    )
}

/// Quotes, backslashes, line feeds, carriage returns and tabs become two characters, of which the
/// first is a backslash; all other characters stay. A text is escaped piece by piece.
pub proof fn law_escaped(a: Seq<char>, b: Seq<char>, c: char)
    ensures
        escaped(Seq::empty()).len() == 0,
        escaped(seq!['"']) == seq!['\\', '"'],
        escaped(seq!['\\']) == seq!['\\', '\\'],
        escaped(seq!['\n']) == seq!['\\', 'n'],
        escaped(seq!['\r']) == seq!['\\', 'r'],
        escaped(seq!['\t']) == seq!['\\', 't'],
        c != '"' && c != '\\' && c != '\n' && c != '\r' && c != '\t' ==> escaped(seq![c])
            == seq![c],
        escaped(a + b) == escaped(a) + escaped(b),
    decreases b.len(),
{
    assert forall|ch: char| #[trigger] escaped(seq![ch]) == escaped_char(ch) by {
        assert(seq![ch].drop_last() =~= Seq::<char>::empty());
        assert(escaped(Seq::<char>::empty()) =~= Seq::<char>::empty());
        assert(escaped(seq![ch]) =~= escaped_char(ch));
    }
    if b.len() == 0 {
        assert(a + b =~= a);
        assert(escaped(a) + escaped(b) =~= escaped(a));
    } else {
        law_escaped(a, b.drop_last(), c);
        assert((a + b).drop_last() =~= a + b.drop_last());
        assert(escaped(a + b) =~= escaped(a) + escaped(b));
    }
}

/// One member of a JSON object with a text.
pub open spec fn text_member(key: Seq<char>, value: Seq<char>) -> Seq<char> {
    seq!['"'] + key + seq!['"', ':', '"'] + escaped(value) + seq!['"']
}

/// One member of a JSON object with something else.
pub open spec fn plain_member(key: Seq<char>, value: Seq<char>) -> Seq<char> {
    seq!['"'] + key + seq!['"', ':'] + value
}

/// What the fixed parts of the metadata are made of.
proof fn lemma_metadata_pieces()
    ensures
        escaped("overlay"@) == "overlay"@,
        escaped("1.0.0"@) == "1.0.0"@,
        ({
            let q = seq!['"'];
            let qcq = seq!['"', ':', '"'];
            let qc = seq!['"', ':'];
            let comma = seq![','];
            &&& "{\"name\":\""@ == seq!['{'] + q + "name"@ + qcq
            &&& "\",\"description\":\""@ == q + comma + q + "description"@ + qcq
            &&& "\",\"attribution\":\""@ == q + comma + q + "attribution"@ + qcq
            &&& "\",\"tileSize\":"@ == q + comma + q + "tileSize"@ + qc
            &&& ",\"minzoom\":"@ == comma + q + "minzoom"@ + qc
            &&& ",\"maxzoom\":"@ == comma + q + "maxzoom"@ + qc
            &&& ",\"bounds\":["@ == comma + q + "bounds"@ + qc + seq!['[']
            &&& "],\"center\":["@ == seq![']'] + comma + q + "center"@ + qc + seq!['[']
            &&& "]}"@ == seq![']'] + seq!['}']
            &&& ","@ == comma
            &&& "\",\"type\":\"overlay\",\"version\":\"1.0.0\",\"format\":\""@ == (q + comma + q
                + "type"@ + qcq) + "overlay"@ + (q + comma + q + "version"@ + qcq) + "1.0.0"@
                + (q + comma + q + "format"@ + qcq)
        }),
{
    reveal_strlit("name");
    reveal_strlit("description");
    reveal_strlit("attribution");
    reveal_strlit("type");
    reveal_strlit("overlay");
    reveal_strlit("version");
    reveal_strlit("1.0.0");
    reveal_strlit("format");
    reveal_strlit("tileSize");
    reveal_strlit("minzoom");
    reveal_strlit("maxzoom");
    reveal_strlit("bounds");
    reveal_strlit("center");
    reveal_strlit("{\"name\":\"");
    reveal_strlit("\",\"description\":\"");
    reveal_strlit("\",\"attribution\":\"");
    reveal_strlit("\",\"type\":\"overlay\",\"version\":\"1.0.0\",\"format\":\"");
    reveal_strlit("\",\"tileSize\":");
    reveal_strlit(",\"minzoom\":");
    reveal_strlit(",\"maxzoom\":");
    reveal_strlit(",\"bounds\":[");
    reveal_strlit(",");
    reveal_strlit("],\"center\":[");
    reveal_strlit("]}");
    lemma_plain_text("overlay"@);
    lemma_plain_text("1.0.0"@);
    let q = seq!['"'];
    let qcq = seq!['"', ':', '"'];
    let qc = seq!['"', ':'];
    let comma = seq![','];
    assert("{\"name\":\""@ =~= seq!['{'] + q + "name"@ + qcq);
    assert("\",\"description\":\""@ =~= q + comma + q + "description"@ + qcq);
    assert("\",\"attribution\":\""@ =~= q + comma + q + "attribution"@ + qcq);
    assert("\",\"tileSize\":"@ =~= q + comma + q + "tileSize"@ + qc);
    assert(",\"minzoom\":"@ =~= comma + q + "minzoom"@ + qc);
    assert(",\"maxzoom\":"@ =~= comma + q + "maxzoom"@ + qc);
    assert(",\"bounds\":["@ =~= comma + q + "bounds"@ + qc + seq!['[']);
    assert("],\"center\":["@ =~= seq![']'] + comma + q + "center"@ + qc + seq!['[']);
    assert("]}"@ =~= seq![']'] + seq!['}']);
    assert(","@ =~= comma);
    assert("\",\"type\":\"overlay\",\"version\":\"1.0.0\",\"format\":\""@ =~= (q + comma + q
        + "type"@ + qcq) + "overlay"@ + (q + comma + q + "version"@ + qcq) + "1.0.0"@
        + (q + comma + q + "format"@ + qcq));
}

/// The bounds of the metadata and their centre.
proof fn lemma_area_members(l: Seq<char>, area: AreaTexts, zoom: Seq<char>)
    ensures
        ({
            let q = seq!['"'];
            let qc = seq!['"', ':'];
            let comma = seq![','];
            let bounds = seq!['['] + area.west@ + comma + area.south@ + comma + area.east@ + comma
                + area.north@ + seq![']'];
            let center = seq!['['] + area.center_lon@ + comma + area.center_lat@ + comma + zoom
                + seq![']'];
            l + (comma + q + "bounds"@ + qc + seq!['[']) + area.west@ + comma + area.south@ + comma
                + area.east@ + comma + area.north@ + (seq![']'] + comma + q + "center"@ + qc
                + seq!['[']) + area.center_lon@ + comma + area.center_lat@ + comma + zoom + (
            seq![']'] + seq!['}']) == l + comma + plain_member("bounds"@, bounds) + comma
                + plain_member("center"@, center) + seq!['}']
        }),
{
    let q = seq!['"'];
    let qc = seq!['"', ':'];
    let comma = seq![','];
    let bounds = seq!['['] + area.west@ + comma + area.south@ + comma + area.east@ + comma
        + area.north@ + seq![']'];
    let center = seq!['['] + area.center_lon@ + comma + area.center_lat@ + comma + zoom + seq![']'];
    let l1 = l + (comma + q + "bounds"@ + qc + seq!['[']) + area.west@ + comma + area.south@ + comma
        + area.east@ + comma + area.north@;
    let r1 = l + comma + plain_member("bounds"@, bounds);
    assert(l1 + seq![']'] =~= r1);
    let l2 = l1 + (seq![']'] + comma + q + "center"@ + qc + seq!['[']) + area.center_lon@ + comma
        + area.center_lat@ + comma + zoom + (seq![']'] + seq!['}']);
    assert(l2 =~= (l1 + seq![']']) + comma + (q + "center"@ + qc + center) + seq!['}']);
}

/// The metadata are a JSON object with eleven members. The texts are escaped. The bounds are
/// west, south, east and north, and the centre is a longitude, a latitude and the lowest zoom
/// level.
pub proof fn law_metadata_members(
    name: Seq<char>,
    description: Seq<char>,
    attribution: Seq<char>,
    format: Seq<char>,
    tile_size: nat,
    min_zoom: nat,
    max_zoom: nat,
    area: AreaTexts,
)
    requires
        escaped(format) == format,
    ensures
        ({
            let comma = seq![','];
            let bounds = seq!['['] + area.west@ + comma + area.south@ + comma + area.east@ + comma
                + area.north@ + seq![']'];
            let center = seq!['['] + area.center_lon@ + comma + area.center_lat@ + comma + decimal(
                min_zoom,
            ) + seq![']'];
            metadata_text(
                name,
                description,
                attribution,
                format,
                tile_size,
                min_zoom,
                max_zoom,
                area,
            ) == seq!['{'] + text_member("name"@, name) + comma + text_member(
                "description"@,
                description,
            ) + comma + text_member("attribution"@, attribution) + comma + text_member(
                "type"@,
                "overlay"@,
            ) + comma + text_member("version"@, "1.0.0"@) + comma + text_member("format"@, format)
                + comma + plain_member("tileSize"@, decimal(tile_size)) + comma + plain_member(
                "minzoom"@,
                decimal(min_zoom),
            ) + comma + plain_member("maxzoom"@, decimal(max_zoom)) + comma + plain_member(
                "bounds"@,
                bounds,
            ) + comma + plain_member("center"@, center) + seq!['}']
        }),
{
    lemma_metadata_pieces();
    let q = seq!['"'];
    let qcq = seq!['"', ':', '"'];
    let qc = seq!['"', ':'];
    let comma = seq![','];
    let l1 = "{\"name\":\""@ + escaped(name);
    let r1 = seq!['{'] + text_member("name"@, name);
    assert(l1 + q =~= r1);
    lemma_next_text(l1, r1, "\",\"description\":\""@, "description"@, description);
    let l2 = l1 + "\",\"description\":\""@ + escaped(description);
    let r2 = r1 + comma + text_member("description"@, description);
    lemma_next_text(l2, r2, "\",\"attribution\":\""@, "attribution"@, attribution);
    let l3 = l2 + "\",\"attribution\":\""@ + escaped(attribution);
    let r3 = r2 + comma + text_member("attribution"@, attribution);
    let kind = "\",\"type\":\"overlay\",\"version\":\"1.0.0\",\"format\":\""@;
    let kind1 = q + comma + q + "type"@ + qcq;
    let kind2 = q + comma + q + "version"@ + qcq;
    let kind3 = q + comma + q + "format"@ + qcq;
    lemma_next_text(l3, r3, kind1, "type"@, "overlay"@);
    let l4 = l3 + kind1 + "overlay"@;
    let r4 = r3 + comma + text_member("type"@, "overlay"@);
    lemma_next_text(l4, r4, kind2, "version"@, "1.0.0"@);
    let l5 = l4 + kind2 + "1.0.0"@;
    let r5 = r4 + comma + text_member("version"@, "1.0.0"@);
    lemma_next_text(l5, r5, kind3, "format"@, format);
    let l6 = l3 + kind + format;
    let r6 = r5 + comma + text_member("format"@, format);
    assert(l6 =~= l5 + kind3 + format);
    let l7 = l6 + "\",\"tileSize\":"@ + decimal(tile_size);
    let r7 = r6 + comma + plain_member("tileSize"@, decimal(tile_size));
    assert(l7 =~= r7) by {
        assert(l7 =~= (l6 + q) + comma + (q + "tileSize"@ + qc + decimal(tile_size)));
    }
    lemma_next_plain(r7, ",\"minzoom\":"@, "minzoom"@, decimal(min_zoom));
    let r8 = r7 + comma + plain_member("minzoom"@, decimal(min_zoom));
    lemma_next_plain(r8, ",\"maxzoom\":"@, "maxzoom"@, decimal(max_zoom));
    let r9 = r8 + comma + plain_member("maxzoom"@, decimal(max_zoom));
    lemma_area_members(r9, area, decimal(min_zoom));
}

/// The next member with a text, where the quote behind the member before it is still to come.
proof fn lemma_next_text(
    l: Seq<char>,
    r: Seq<char>,
    between: Seq<char>,
    key: Seq<char>,
    value: Seq<char>,
)
    requires
        l + seq!['"'] == r,
        between == seq!['"'] + seq![','] + seq!['"'] + key + seq!['"', ':', '"'],
    ensures
        (l + between + escaped(value)) + seq!['"'] == r + seq![','] + text_member(key, value),
{
    assert((l + between + escaped(value)) + seq!['"'] =~= (l + seq!['"']) + seq![',']
        + text_member(key, value));
}

/// The next member with something else.
proof fn lemma_next_plain(l: Seq<char>, between: Seq<char>, key: Seq<char>, value: Seq<char>)
    requires
        between == seq![','] + seq!['"'] + key + seq!['"', ':'],
    ensures
        l + between + value == l + seq![','] + plain_member(key, value),
{
    assert(l + between + value =~= l + seq![','] + plain_member(key, value));
}

proof fn lemma_plain_text(s: Seq<char>)
    requires
        forall|i: int|
            0 <= i < s.len() ==> s[i] != '"' && s[i] != '\\' && s[i] != '\n' && s[i] != '\r' && s[i]
                != '\t',
    ensures
        escaped(s) == s,
    decreases s.len(),
{
    if s.len() > 0 {
        lemma_plain_text(s.drop_last());
        assert(s.drop_last().push(s.last()) =~= s);
        assert(escaped(s) =~= s);
    } else {
        assert(escaped(s) =~= s);
    }
}

/// A packed archive is named as the user asked, else after the directory of the tiles, and else
/// by a general name. What is given comes before what is not.
pub proof fn law_pack_name(opts: PackOptions, dir_name: Option<String>)
    ensures
        opts.name matches Some(name) ==> pack_name(opts, dir_name) == name@,
        opts.name is None ==> (dir_name matches Some(name) ==> pack_name(opts, dir_name) == name@),
        opts.name is None && dir_name is None ==> pack_name(opts, dir_name) == "pmtiler archive"@,
        forall|given: Seq<char>, default: Seq<char>|
            #[trigger] text_or(Some(given), default) == given,
        forall|default: Seq<char>| #[trigger] text_or(None, default) == default,
{
}

} // verus!
