//! Picking a CJK font for the interface.
//!
//! The built-in fonts only have Latin glyphs, so a system CJK font is added
//! as a fallback. The font renderer panics on a font it cannot parse, so a
//! candidate is first parsed with the same parser, and only a face that
//! parses is handed on.
use vstd::prelude::*;

verus! {

/// Where CJK fonts are usually found, best first, on macOS, Linux and
/// Windows. The first one that parses wins.
pub const CANDIDATES: [&'static str; 13] = [
    "/System/Library/Fonts/PingFang.ttc",
    "/System/Library/Fonts/Hiragino Sans GB.ttc",
    "/System/Library/Fonts/STHeiti Medium.ttc",
    "/System/Library/Fonts/STHeiti Light.ttc",
    "/System/Library/Fonts/Supplemental/Songti.ttc",
    "/System/Library/Fonts/Supplemental/Arial Unicode.ttf",
    "/usr/share/fonts/opentype/noto/NotoSansCJK-Regular.ttc",
    "/usr/share/fonts/opentype/noto/NotoSerifCJK-Regular.ttc",
    "/usr/share/fonts/truetype/wqy/wqy-microhei.ttc",
    "/usr/share/fonts/truetype/arphic/uming.ttc",
    "C:/Windows/Fonts/msyh.ttc",
    "C:/Windows/Fonts/simhei.ttf",
    "C:/Windows/Fonts/simsun.ttc",
];

/// How many faces of a file are tried: a collection (`ttcf`) may hold
/// several, and the first eight are tried; a single font has one.
pub open spec fn faces_to_try(data: Seq<u8>) -> u32 {
    if data.len() >= 4 && data.take(4) == seq![0x74u8, 0x74u8, 0x63u8, 0x66u8] {
        8
    } else {
        1
    }
}

/// Whether `skrifa::FontRef::from_index` accepts face `index` of `data`.
pub uninterp spec fn font_face_parses(data: Seq<u8>, index: u32) -> bool;

/// `skrifa::FontRef::from_index(data, index).is_ok()`: whether the font
/// parser reads face `index` of the file. Its result is named, not stated.
#[verifier::external_body]
fn face_parses(data: &[u8], index: u32) -> (r: bool)
    ensures
        r == font_face_parses(data@, index),
{
    skrifa::FontRef::from_index(data, index).is_ok()
}

/// Whether the file begins with the collection tag `ttcf`.
fn is_collection(data: &[u8]) -> (r: bool)
    ensures
        r == (faces_to_try(data@) == 8),
{
    let r = data.len() >= 4 && data[0] == 0x74 && data[1] == 0x74 && data[2] == 0x63 && data[3]
        == 0x66;
    proof {
        if data@.len() >= 4 {
            if r {
                assert(data@.take(4) =~= seq![0x74u8, 0x74u8, 0x63u8, 0x66u8]);
            } else if data@.take(4) == seq![0x74u8, 0x74u8, 0x63u8, 0x66u8] {
                assert(data@.take(4)[0] == data@[0]);
                assert(data@.take(4)[1] == data@[1]);
                assert(data@.take(4)[2] == data@[2]);
                assert(data@.take(4)[3] == data@[3]);
            }
        }
    }
    r
}

/// The first face of the font file `data` that the parser accepts, among
/// the faces that are tried; `None` when the file is of no use.
pub fn usable_face(data: &[u8]) -> (r: Option<u32>)
    ensures
        match r {
            Some(i) => i < faces_to_try(data@) && font_face_parses(data@, i) && forall|j: u32|
                j < i ==> !font_face_parses(data@, j),
            None => forall|j: u32| j < faces_to_try(data@) ==> !font_face_parses(data@, j),
        },
{
    let faces: u32 = if is_collection(data) {
        8
    } else {
        1
    };
    let mut i: u32 = 0;
    while i < faces
        invariant
            faces == faces_to_try(data@),
            i <= faces,
            forall|j: u32| j < i ==> !font_face_parses(data@, j),
        decreases faces - i,
    {
        if face_parses(data, i) {
            return Some(i);
        }
        i += 1;
    }
    None
}

} // verus!
