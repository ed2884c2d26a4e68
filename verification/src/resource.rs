//! Resource addressing: routing of the addresses the client understands.
//!
//! The fetch layer itself is an external collaborator; this module only
//! decides, from the address alone, what is to be fetched: a local file
//! path, a plain remote address, or — for the shorthand pointing at a
//! remote repository's hosted file — the rewritten raw-content address.
//! Inline `data:` images are decoded here, including their base64 payload.

use vstd::prelude::*;

use crate::text::{spec_split, spec_starts_with, split_char, starts_with};

verus! {

/// Where an address leads.
#[derive(Debug, PartialEq, Eq)]
pub enum Route {
    /// A path on the local machine.
    LocalFile(String),
    /// A remote address for the fetch layer.
    Remote(String),
}

/// Mathematical model of a [`Route`].
#[verifier::ext_equal]
pub enum RouteModel {
    LocalFile(Seq<char>),
    Remote(Seq<char>),
}

impl View for Route {
    type V = RouteModel;

    open spec fn view(&self) -> RouteModel {
        match self {
            Route::LocalFile(p) => RouteModel::LocalFile(p@),
            Route::Remote(u) => RouteModel::Remote(u@),
        }
    }
}

/// Segment `i` of `s` split on `/`, or empty past the end.
pub open spec fn spec_segment(s: Seq<char>, i: int) -> Seq<char> {
    let segs = spec_split(s, '/');
    if 0 <= i < segs.len() {
        segs[i]
    } else {
        Seq::empty()
    }
}

/// The raw-content address for a file hosted in a remote repository: the
/// user and repository segments are kept, the branch defaults to `main`,
/// and the last segment names the file.
pub open spec fn spec_rewrite_repo(u: Seq<char>) -> Seq<char> {
    let segs = spec_split(u, '/');
    "https://raw.githubusercontent.com/"@ + spec_segment(u, 3) + "/"@ + spec_segment(u, 4)
        + "/main/"@ + segs.last()
}

/// Rewrites a repository page address into its raw-content equivalent.
pub fn rewrite_repo_url(u: &str) -> (r: String)
    ensures
        r@ == spec_rewrite_repo(u@),
{
    let segs = split_char(u, '/');
    let mut r = String::from_str("https://raw.githubusercontent.com/");
    if segs.len() > 3 {
        proof {
            assert(segs.deep_view()[3] == segs@[3]@);
        }
        r.append(segs[3].as_str());
    }
    r.append("/");
    if segs.len() > 4 {
        proof {
            assert(segs.deep_view()[4] == segs@[4]@);
        }
        r.append(segs[4].as_str());
    }
    r.append("/main/");
    proof {
        assert(segs.deep_view().last() == segs@[segs@.len() - 1]@);
    }
    r.append(segs[segs.len() - 1].as_str());
    proof {
        assert(r@ =~= spec_rewrite_repo(u@));
    }
    r
}

/// How a fetchable address routes.
pub open spec fn spec_classify(u: Seq<char>) -> RouteModel {
    if spec_starts_with(u, "file://"@) {
        RouteModel::LocalFile(u.skip("file://"@.len() as int))
    } else if spec_starts_with(u, "https://github.com"@) {
        RouteModel::Remote(spec_rewrite_repo(u))
    } else {
        RouteModel::Remote(u)
    }
}

/// Routes one address: a `file://` path is read locally; an address on a
/// remote repository's page is rewritten to its raw-content form; anything
/// else is fetched as given.
pub fn classify_resource(u: &str) -> (r: Route)
    ensures
        r@ == spec_classify(u@),
{
    if starts_with(u, "file://") {
        let plen = "file://".unicode_len();
        proof {
            assert(u@.len() >= "file://"@.len());
        }
        let rest = u.substring_char(plen, u.unicode_len());
        assert(rest@ == u@.skip("file://"@.len() as int));
        Route::LocalFile(rest.to_owned())
    } else if starts_with(u, "https://github.com") {
        Route::Remote(rewrite_repo_url(u))
    } else {
        Route::Remote(u.to_owned())
    }
}

/// Joins a relative reference onto a base address with a single slash.
pub fn join_url(base: &str, rel: &str) -> (r: String)
    ensures
        r@ == base@ + "/"@ + rel@,
{
    let mut r = base.to_owned();
    r.append("/");
    r.append(rel);
    r
}

/// The value of a base64 alphabet character, `-1` outside the alphabet.
pub open spec fn spec_b64_digit(c: char) -> int {
    if 'A' <= c && c <= 'Z' {
        c as int - 'A' as int
    } else if 'a' <= c && c <= 'z' {
        26 + c as int - 'a' as int
    } else if '0' <= c && c <= '9' {
        52 + c as int - '0' as int
    } else if c == '+' {
        62
    } else if c == '/' {
        63
    } else {
        -1
    }
}

/// The value used when decoding: padding counts as zero.
pub open spec fn spec_b64_val(c: char) -> int {
    if spec_b64_digit(c) >= 0 {
        spec_b64_digit(c)
    } else {
        0
    }
}

/// A well-formed base64 payload: length a multiple of four, alphabet
/// characters throughout, except that the final one or two characters may
/// be `=` padding — and a padded third-to-last position forces a padded
/// last one.
pub open spec fn spec_b64_valid(s: Seq<char>) -> bool {
    &&& s.len() % 4 == 0
    &&& forall|i: int|
        0 <= i < s.len() ==> (spec_b64_digit(s[i]) >= 0 || (s[i] == '=' && i >= s.len() - 2))
    &&& (s.len() >= 2 && s[s.len() - 2] == '=' ==> s[s.len() - 1] == '=')
}

/// The bytes of one four-character block, fewer when padded.
pub open spec fn spec_b64_block(c0: char, c1: char, c2: char, c3: char) -> Seq<u8> {
    let v0 = spec_b64_val(c0);
    let v1 = spec_b64_val(c1);
    let v2 = spec_b64_val(c2);
    let v3 = spec_b64_val(c3);
    let b0 = v0 * 4 + v1 / 16;
    let b1 = (v1 % 16) * 16 + v2 / 4;
    let b2 = (v2 % 4) * 64 + v3;
    if c2 == '=' {
        seq![b0 as u8]
    } else if c3 == '=' {
        seq![b0 as u8, b1 as u8]
    } else {
        seq![b0 as u8, b1 as u8, b2 as u8]
    }
}

/// The decoded bytes of a well-formed payload, block by block.
pub open spec fn spec_b64_decode(s: Seq<char>) -> Seq<u8>
    decreases s.len(),
{
    if s.len() < 4 {
        Seq::empty()
    } else {
        spec_b64_block(s[0], s[1], s[2], s[3]) + spec_b64_decode(s.skip(4))
    }
}

/// The value of a base64 alphabet character, `None` outside the alphabet.
fn b64_digit(c: char) -> (r: Option<u32>)
    ensures
        match r {
            Some(v) => spec_b64_digit(c) == v as int && v < 64,
            None => spec_b64_digit(c) < 0,
        },
{
    if 'A' <= c && c <= 'Z' {
        Some((c as u32) - ('A' as u32))
    } else if 'a' <= c && c <= 'z' {
        Some(26 + (c as u32) - ('a' as u32))
    } else if '0' <= c && c <= '9' {
        Some(52 + (c as u32) - ('0' as u32))
    } else if c == '+' {
        Some(62)
    } else if c == '/' {
        Some(63)
    } else {
        None
    }
}

/// Decodes a base64 payload: `Some` exactly on well-formed payloads, and
/// then exactly the bytes the payload encodes.
pub fn base64_decode(s: &str) -> (r: Option<Vec<u8>>)
    ensures
        match r {
            Some(b) => spec_b64_valid(s@) && b@ == spec_b64_decode(s@),
            None => !spec_b64_valid(s@),
        },
{
    let len = s.unicode_len();
    if len % 4 != 0 {
        return None;
    }
    let mut out: Vec<u8> = Vec::new();
    let mut i: usize = 0;
    proof {
        assert(s@.skip(0) =~= s@);
        assert(out@ =~= Seq::<u8>::empty());
    }
    while i < len
        invariant
            len == s@.len(),
            len % 4 == 0,
            i % 4 == 0,
            i <= len,
            forall|k: int|
                0 <= k < i ==> (spec_b64_digit(s@[k]) >= 0 || (s@[k] == '=' && k >= s@.len()
                    - 2)),
            i < len ==> (forall|k: int| 0 <= k < i ==> spec_b64_digit(s@[k]) >= 0),
            i == len && len >= 2 ==> (s@[len - 2] == '=' ==> s@[len - 1] == '='),
            spec_b64_decode(s@) == out@ + spec_b64_decode(s@.skip(i as int)),
        decreases len - i,
    {
        let c0 = s.get_char(i);
        let c1 = s.get_char(i + 1);
        let c2 = s.get_char(i + 2);
        let c3 = s.get_char(i + 3);
        proof {
            assert(s@.skip(i as int)[0] == s@[i as int]);
            assert(s@.skip(i as int)[1] == s@[i as int + 1]);
            assert(s@.skip(i as int)[2] == s@[i as int + 2]);
            assert(s@.skip(i as int)[3] == s@[i as int + 3]);
            assert(s@.skip(i as int).skip(4) =~= s@.skip(i as int + 4));
        }
        let v0 = match b64_digit(c0) {
            Some(v) => v,
            None => {
                return None;
            },
        };
        let v1 = match b64_digit(c1) {
            Some(v) => v,
            None => {
                return None;
            },
        };
        let pad2 = c2 == '=';
        let pad3 = c3 == '=';
        let v2 = if pad2 {
            0u32
        } else {
            match b64_digit(c2) {
                Some(v) => v,
                None => {
                    return None;
                },
            }
        };
        let v3 = if pad3 {
            0u32
        } else {
            match b64_digit(c3) {
                Some(v) => v,
                None => {
                    return None;
                },
            }
        };
        if (pad2 || pad3) && i + 4 != len {
            return None;
        }
        if pad2 && !pad3 {
            return None;
        }
        let b0: u32 = v0 * 4 + v1 / 16;
        let b1: u32 = (v1 % 16) * 16 + v2 / 4;
        let b2: u32 = (v2 % 4) * 64 + v3;
        let ghost out_before = out@;
        let ghost block = spec_b64_block(s@[i as int], s@[i as int + 1], s@[i as int + 2], s@[i as int + 3]);
        out.push(b0 as u8);
        if !pad2 {
            out.push(b1 as u8);
            if !pad3 {
                out.push(b2 as u8);
            }
        }
        proof {
            assert(out@ =~= out_before + block);
        }
        i = i + 4;
    }
    proof {
        assert(s@.skip(len as int) =~= Seq::<char>::empty());
        assert(out@ =~= spec_b64_decode(s@));
    }
    Some(out)
}

/// The index of the first occurrence of `c`, or `-1`.
pub open spec fn spec_index_of(s: Seq<char>, c: char) -> int
    decreases s.len(),
{
    if s.len() == 0 {
        -1
    } else if s[0] == c {
        0
    } else {
        let rest = spec_index_of(s.skip(1), c);
        if rest < 0 {
            -1
        } else {
            1 + rest
        }
    }
}

/// Finds the first occurrence of `c`.
pub fn index_of(s: &str, c: char) -> (r: Option<usize>)
    ensures
        match r {
            Some(i) => spec_index_of(s@, c) == i as int,
            None => spec_index_of(s@, c) == -1,
        },
    decreases s@.len(),
{
    let len = s.unicode_len();
    if len == 0 {
        return None;
    }
    if s.get_char(0) == c {
        return Some(0);
    }
    let rest = s.substring_char(1, len);
    assert(rest@ == s@.skip(1));
    match index_of(rest, c) {
        None => None,
        Some(i) => {
            proof {
                lemma_index_of_in_range(rest@, c);
                assert((i as int) < rest@.len());
                assert(rest@.len() < s@.len() <= usize::MAX);
            }
            Some(i + 1)
        },
    }
}

/// A found index lies inside the string.
pub proof fn lemma_index_of_in_range(s: Seq<char>, c: char)
    ensures
        spec_index_of(s, c) >= 0 ==> spec_index_of(s, c) < s.len(),
    decreases s.len(),
{
    if s.len() > 0 && s[0] != c {
        lemma_index_of_in_range(s.skip(1), c);
    }
}

/// What an image address yields.
#[derive(Debug, PartialEq, Eq)]
pub enum ImageData {
    /// The decoded bytes of an inline `data:` image; empty when the payload
    /// was not base64, or was malformed.
    Inline(Vec<u8>),
    /// An address the fetch layer must resolve in the background.
    Fetched(String),
}

/// Mathematical model of an [`ImageData`].
#[verifier::ext_equal]
pub enum ImageDataModel {
    Inline(Seq<u8>),
    Fetched(Seq<char>),
}

impl View for ImageData {
    type V = ImageDataModel;

    open spec fn view(&self) -> ImageDataModel {
        match self {
            ImageData::Inline(b) => ImageDataModel::Inline(b@),
            ImageData::Fetched(u) => ImageDataModel::Fetched(u@),
        }
    }
}

/// The base64 payload of a `data:` address: the part after the first comma,
/// provided the part before it ends in `;base64`.
pub open spec fn spec_data_b64_payload(u: Seq<char>) -> Option<Seq<char>> {
    let comma = spec_index_of(u, ',');
    if comma < 0 {
        None
    } else {
        let meta = u.take(comma);
        if crate::text::spec_ends_with(meta, ";base64"@) {
            Some(u.skip(comma + 1))
        } else {
            None
        }
    }
}

/// What an image address yields, and whether an error is owed to the log.
///
/// A `data:` address decodes inline: a well-formed base64 payload gives its
/// bytes; a malformed one, or a `data:` address that is not base64 at all,
/// gives the empty placeholder image — the malformed payload alone is an
/// error.  Every other address is handed to the fetch layer.
pub open spec fn spec_image_data(u: Seq<char>) -> (ImageDataModel, bool) {
    if spec_starts_with(u, "data:"@) {
        match spec_data_b64_payload(u) {
            Some(payload) => if spec_b64_valid(payload) {
                (ImageDataModel::Inline(spec_b64_decode(payload)), false)
            } else {
                (ImageDataModel::Inline(Seq::empty()), true)
            },
            None => (ImageDataModel::Inline(Seq::empty()), false),
        }
    } else {
        (ImageDataModel::Fetched(u), false)
    }
}

/// Resolves an image address; the flag reports a malformed base64 payload.
pub fn resolve_image_data(u: &str) -> (r: (ImageData, bool))
    ensures
        (r.0@, r.1) == spec_image_data(u@),
{
    if starts_with(u, "data:") {
        match index_of(u, ',') {
            None => (ImageData::Inline(Vec::new()), false),
            Some(comma) => {
                proof {
                    lemma_index_of_in_range(u@, ',');
                }
                let len = u.unicode_len();
                let meta = u.substring_char(0, comma);
                let payload = u.substring_char(comma + 1, len);
                proof {
                    assert(meta@ == u@.take(comma as int));
                    assert(payload@ == u@.skip(comma as int + 1));
                }
                proof {
                    reveal_strlit(";base64");
                }
                if crate::text::ends_with(meta, ";base64") {
                    match base64_decode(payload) {
                        Some(bytes) => (ImageData::Inline(bytes), false),
                        None => (ImageData::Inline(Vec::new()), true),
                    }
                } else {
                    (ImageData::Inline(Vec::new()), false)
                }
            },
        }
    } else {
        (ImageData::Fetched(u.to_owned()), false)
    }
}

} // verus!
