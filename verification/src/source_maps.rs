//! Source-map composition: build the transform's own map, chain it under an
//! input or inline map, and serialize the result. The map objects themselves
//! belong to the sourcemap crate and are opaque here; the composer's
//! decision logic is what this module verifies.

use vstd::prelude::*;

use crate::comments::SourceMapComment;
use crate::emit::SrcMapToken;

verus! {

/// The sourcemap crate's map object, opaque to the verifier.
#[verifier::external_type_specification]
#[verifier::external_body]
pub struct ExSourceMap(sourcemap::SourceMap);

/// A mapping token packed into the 32-bit fields the sourcemap crate stores,
/// saturating counts that could not fit.
#[derive(Clone, Copy, Debug, PartialEq, Eq, Structural)]
pub struct PackedToken {
    pub dst_line: u32,
    pub dst_col: u32,
    pub src_line: u32,
    pub src_col: u32,
}

/// A position component packed to 32 bits, saturating at the top.
pub open spec fn sat32(n: usize) -> u32 {
    if n > 0xFFFFFFFF {
        0xFFFFFFFF
    } else {
        n as u32
    }
}

fn exec_sat32(n: usize) -> (r: u32)
    ensures
        r == sat32(n),
{
    if n > 0xFFFFFFFF {
        0xFFFFFFFF
    } else {
        n as u32
    }
}

/// Pack the emitter's tokens for the sourcemap crate.
pub fn pack_tokens(tokens: &Vec<SrcMapToken>) -> (r: Vec<PackedToken>)
    ensures
        r@.len() == tokens@.len(),
        forall|k: int|
            0 <= k < tokens@.len() ==> #[trigger] r@[k] == (PackedToken {
                dst_line: sat32(tokens@[k].dst_line),
                dst_col: sat32(tokens@[k].dst_col),
                src_line: sat32(tokens@[k].src_line),
                src_col: sat32(tokens@[k].src_col),
            }),
{
    let mut r: Vec<PackedToken> = Vec::new();
    let mut i: usize = 0;
    while i < tokens.len()
        invariant
            0 <= i <= tokens@.len(),
            r@.len() == i,
            forall|k: int|
                0 <= k < i ==> #[trigger] r@[k] == (PackedToken {
                    dst_line: sat32(tokens@[k].dst_line),
                    dst_col: sat32(tokens@[k].dst_col),
                    src_line: sat32(tokens@[k].src_line),
                    src_col: sat32(tokens@[k].src_col),
                }),
        decreases tokens@.len() - i,
    {
        let t = tokens[i];
        r.push(
            PackedToken {
                dst_line: exec_sat32(t.dst_line),
                dst_col: exec_sat32(t.dst_col),
                src_line: exec_sat32(t.src_line),
                src_col: exec_sat32(t.src_col),
            },
        );
        i += 1;
    }
    r
}

/// Whether the sourcemap crate accepts these bytes as a source map: a pure
/// function of the bytes.
pub uninterp spec fn sourcemap_parse_ok(bytes: Seq<u8>) -> bool;

/// Relies on sourcemap's SourceMap::from_slice: parses a serialized source
/// map; whether parsing succeeds depends on the bytes alone.
#[verifier::external_body]
pub fn parse_source_map(bytes: &[u8]) -> (r: Result<sourcemap::SourceMap, String>)
    ensures
        r is Ok <==> sourcemap_parse_ok(bytes@),
{
    match sourcemap::SourceMap::from_slice(bytes) {
        Ok(map) => Ok(map),
        Err(e) => Err(format!("{}", e)),
    }
}

/// Relies on sourcemap's SourceMap::new: assembles a map from raw tokens,
/// one source file name, and optionally that file's embedded text.
#[verifier::external_body]
pub fn build_source_map(
    tokens: &Vec<PackedToken>,
    file_name: &str,
    embedded_code: Option<&str>,
) -> sourcemap::SourceMap {
    let raw: Vec<sourcemap::RawToken> = tokens.iter().map(|t| sourcemap::RawToken {
        dst_line: t.dst_line, dst_col: t.dst_col, src_line: t.src_line, src_col: t.src_col,
        src_id: 0, name_id: !0, is_range: false,
    }).collect();
    let contents = embedded_code.map(|code| vec![Some(code.into())]);
    sourcemap::SourceMap::new(None, raw, vec![], vec![file_name.into()], contents)
}

/// Relies on sourcemap's SourceMap::adjust_mappings: reinterprets the older
/// map's mappings through the newer map, so the result maps the final output
/// back to the earliest known original source.
#[verifier::external_body]
pub fn adjust_mappings(map: &mut sourcemap::SourceMap, adjustment: &sourcemap::SourceMap)
{
    map.adjust_mappings(adjustment)
}

/// Relies on sourcemap's SourceMap::to_writer: serializes the map to JSON.
/// Writing into a byte vector cannot fail and JSON output is valid UTF-8, so
/// serialization always yields a string.
#[verifier::external_body]
pub fn serialize_source_map(map: &sourcemap::SourceMap) -> (r: Option<String>)
    ensures
        r is Some,
{
    let mut buffer: Vec<u8> = Vec::new();
    match map.to_writer(&mut buffer) {
        Ok(()) => String::from_utf8(buffer).ok(),
        Err(_) => None,
    }
}

/// Relies on sourcemap's SourceMap::to_data_url: serializes the map as a
/// base64 data URL. Encoding into a byte vector and base64 cannot fail, so a
/// URL is always produced.
#[verifier::external_body]
pub fn source_map_to_data_url(map: &sourcemap::SourceMap) -> (r: Option<String>)
    ensures
        r is Some,
{
    map.to_data_url().ok()
}

/// The span of an inline source-map comment, which must be deleted from the
/// output because the transform makes the old map wrong; external map
/// comments are kept.
pub fn source_map_comment_span_to_delete(source_map_comment: &Option<SourceMapComment>) -> (r:
    Option<crate::span::Span>)
    ensures
        match source_map_comment {
            Some(SourceMapComment::Inline(_, span)) => r == Some(*span),
            _ => r is None,
        },
{
    match source_map_comment {
        Some(SourceMapComment::External) => None,
        Some(SourceMapComment::Inline(_, span)) => Some(*span),
        None => None,
    }
}

/// Which map the composer decided to emit.
pub enum ChainedMap {
    /// No map can be produced: the input referenced an external map.
    NoMap,
    /// The transform's own map, unchanged.
    TransformMap(sourcemap::SourceMap),
    /// An input or inline map chained under the transform's map.
    Chained(sourcemap::SourceMap),
}

/// Decide and build the output map.
///
/// An external source-map comment makes chaining impossible, so no map is
/// produced. When both an inline comment and a caller-supplied map exist,
/// the caller's map wins; whichever map is chosen is parsed and its mappings
/// adjusted through the transform's map. With no older map, the transform's
/// map is the output. Fails exactly when the chosen older map does not
/// parse.
pub fn chain_source_map_if_needed(
    source_map_comment: &Option<SourceMapComment>,
    input_source_map: &Option<String>,
    transform_source_map: sourcemap::SourceMap,
) -> (r: Result<ChainedMap, String>)
    ensures
        match *source_map_comment {
            Some(SourceMapComment::External) => r matches Ok(m) && m is NoMap,
            Some(SourceMapComment::Inline(bytes, _)) => {
                match *input_source_map {
                    Some(supplied) => {
                        if sourcemap_parse_ok(vstd::utf8::encode_utf8(supplied@)) {
                            r matches Ok(m) && m is Chained
                        } else {
                            r is Err
                        }
                    },
                    None => {
                        if sourcemap_parse_ok(bytes@) {
                            r matches Ok(m) && m is Chained
                        } else {
                            r is Err
                        }
                    },
                }
            },
            None => {
                match *input_source_map {
                    Some(supplied) => {
                        if sourcemap_parse_ok(vstd::utf8::encode_utf8(supplied@)) {
                            r matches Ok(m) && m is Chained
                        } else {
                            r is Err
                        }
                    },
                    None => r matches Ok(m) && (m matches ChainedMap::TransformMap(t) && t
                        == transform_source_map),
                }
            },
        },
{
    match source_map_comment {
        Some(SourceMapComment::External) => Ok(ChainedMap::NoMap),
        Some(SourceMapComment::Inline(bytes, _)) => {
            match input_source_map {
                Some(supplied) => {
                    // Maps from two sources: trust the caller-supplied map
                    // and chain with it.
                    match parse_source_map(supplied.as_str().as_bytes()) {
                        Ok(mut map) => {
                            adjust_mappings(&mut map, &transform_source_map);
                            Ok(ChainedMap::Chained(map))
                        },
                        Err(e) => Err(e),
                    }
                },
                None => {
                    match parse_source_map(bytes.as_slice()) {
                        Ok(mut map) => {
                            adjust_mappings(&mut map, &transform_source_map);
                            Ok(ChainedMap::Chained(map))
                        },
                        Err(e) => Err(e),
                    }
                },
            }
        },
        None => {
            match input_source_map {
                Some(supplied) => {
                    match parse_source_map(supplied.as_str().as_bytes()) {
                        Ok(mut map) => {
                            adjust_mappings(&mut map, &transform_source_map);
                            Ok(ChainedMap::Chained(map))
                        },
                        Err(e) => Err(e),
                    }
                },
                None => Ok(ChainedMap::TransformMap(transform_source_map)),
            }
        },
    }
}

} // verus!
