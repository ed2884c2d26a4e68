//! Domain records of the name service, the registration rules, and the
//! secret keys handed to registrants.

use vstd::prelude::*;

use crate::text::{is_letter, push_char, spec_is_digit, spec_is_letter, str_eq};

verus! {

/// A published website: top-level name, name, and where it points.
#[derive(Clone, Debug, PartialEq, Eq)]
pub struct Website {
    pub tld: String,
    pub name: String,
    pub ip: String,
}

/// A stored domain record, with the secret key that authorizes changes.
pub struct Domain {
    pub tld: String,
    pub name: String,
    pub ip: String,
    pub secret_key: String,
}

/// A registration request.
pub struct DomainIncoming {
    pub name: String,
    pub tld: String,
    pub ip: String,
}

/// An update request: a new address, authorized by the secret key.
pub struct Update {
    pub ip: String,
    pub key: String,
}

/// Why a registration is refused.
#[derive(Debug, PartialEq, Eq)]
pub enum RegistrationError {
    /// The name has a character outside letters and `-`, the top-level name
    /// is not served, or the name is over 24 characters.
    BadFormat,
    /// The lowercased name contains a refused word.
    Offensive,
}

/// ASCII lowercase of one character.
pub open spec fn spec_lower_char(c: char) -> char {
    if 'A' <= c && c <= 'Z' {
        ((c as u8) + 32) as char
    } else {
        c
    }
}

/// ASCII lowercase of a string.
pub open spec fn spec_lower(s: Seq<char>) -> Seq<char> {
    s.map_values(|c: char| spec_lower_char(c))
}

/// Lowers the ASCII letters of a string.
pub fn to_ascii_lower(s: &str) -> (r: String)
    ensures
        r@ == spec_lower(s@),
{
    let len = s.unicode_len();
    let mut r = String::new();
    let mut i: usize = 0;
    proof {
        assert(r@ =~= spec_lower(s@.take(0)));
    }
    while i < len
        invariant
            len == s@.len(),
            i <= len,
            r@ =~= spec_lower(s@.take(i as int)),
        decreases len - i,
    {
        let c = s.get_char(i);
        let lowered = if 'A' <= c && c <= 'Z' {
            ((c as u8) + 32) as char
        } else {
            c
        };
        push_char(&mut r, lowered);
        proof {
            assert(s@.take(i as int + 1)[i as int] == s@[i as int]);
            assert(forall|k: int|
                0 <= k < i ==> s@.take(i as int + 1)[k] == s@.take(i as int)[k]);
            assert(r@ =~= spec_lower(s@.take(i as int + 1)));
        }
        i = i + 1;
    }
    proof {
        assert(s@.take(len as int) =~= s@);
    }
    r
}

/// True when `w` occurs somewhere inside `s`.
pub open spec fn spec_contains_word(s: Seq<char>, w: Seq<char>) -> bool {
    exists|i: int|
        0 <= i <= s.len() - w.len() && #[trigger] s.subrange(i, i + w.len()) == w
}

/// Looks for `w` anywhere inside `s`.
pub fn contains_word(s: &str, w: &str) -> (r: bool)
    ensures
        r == spec_contains_word(s@, w@),
{
    let s_len = s.unicode_len();
    let w_len = w.unicode_len();
    if w_len == 0 {
        proof {
            assert(s@.subrange(0, 0 + w@.len() as int) =~= w@);
            assert(spec_contains_word(s@, w@));
        }
        return true;
    }
    if w_len > s_len {
        proof {
            if spec_contains_word(s@, w@) {
                let i = choose|i: int|
                    0 <= i <= s@.len() - w@.len() && #[trigger] s@.subrange(i, i + w@.len())
                        == w@;
                assert(false);
            }
        }
        return false;
    }
    let limit = s_len - w_len;
    let mut i: usize = 0;
    while i <= limit
        invariant
            s_len == s@.len(),
            w_len == w@.len(),
            0 < w_len <= s_len,
            limit == s_len - w_len,
            i <= limit + 1,
            forall|k: int| 0 <= k < i ==> #[trigger] s@.subrange(k, k + w@.len()) != w@,
        decreases limit + 1 - i,
    {
        let piece = s.substring_char(i, i + w_len);
        proof {
            assert(piece@ == s@.subrange(i as int, i as int + w@.len()));
        }
        if str_eq(piece, w) {
            proof {
                assert(s@.subrange(i as int, i as int + w@.len()) == w@);
            }
            return true;
        }
        i = i + 1;
    }
    proof {
        assert(forall|k: int| 0 <= k <= s@.len() - w@.len() ==> #[trigger] s@.subrange(
            k,
            k + w@.len(),
        ) != w@);
    }
    false
}

/// A character a domain name may hold: a letter or a dash.
pub open spec fn spec_name_char(c: char) -> bool {
    spec_is_letter(c) || c == '-'
}

/// The format rules of a registration: every name character a letter or
/// dash, the top-level name among those served, the name at most 24
/// characters.
pub open spec fn spec_format_ok(name: Seq<char>, tld: Seq<char>, tlds: Seq<Seq<char>>) -> bool {
    &&& forall|i: int| 0 <= i < name.len() ==> spec_name_char(name[i])
    &&& tlds.contains(tld)
    &&& name.len() <= 24
}

/// True when the lowercased name contains one of the refused words.
pub open spec fn spec_offensive(name: Seq<char>, words: Seq<Seq<char>>) -> bool {
    exists|k: int| 0 <= k < words.len() && spec_contains_word(spec_lower(name), words[k])
}

/// Decides one registration: `Ok` exactly when the format rules hold and
/// the lowercased name is free of refused words; otherwise the precise
/// refusal.
pub fn validate_registration(
    name: &str,
    tld: &str,
    tlds: &Vec<String>,
    offensive: &Vec<String>,
) -> (r: Result<(), RegistrationError>)
    ensures
        match r {
            Ok(_) => spec_format_ok(name@, tld@, tlds.deep_view()) && !spec_offensive(
                name@,
                offensive.deep_view(),
            ),
            Err(e) => match e {
                RegistrationError::BadFormat => !spec_format_ok(name@, tld@, tlds.deep_view()),
                RegistrationError::Offensive => spec_format_ok(name@, tld@, tlds.deep_view())
                    && spec_offensive(name@, offensive.deep_view()),
            },
        },
{
    let len = name.unicode_len();
    if len > 24 {
        return Err(RegistrationError::BadFormat);
    }
    let mut i: usize = 0;
    while i < len
        invariant
            len == name@.len(),
            i <= len,
            forall|k: int| 0 <= k < i ==> spec_name_char(name@[k]),
        decreases len - i,
    {
        let c = name.get_char(i);
        if !(is_letter(c) || c == '-') {
            return Err(RegistrationError::BadFormat);
        }
        i = i + 1;
    }
    if !crate::page::contains_string(tlds, tld) {
        return Err(RegistrationError::BadFormat);
    }
    let lowered = to_ascii_lower(name);
    proof {
        assert(spec_format_ok(name@, tld@, tlds.deep_view()));
    }
    let mut k: usize = 0;
    while k < offensive.len()
        invariant
            k <= offensive.len(),
            lowered@ == spec_lower(name@),
            spec_format_ok(name@, tld@, tlds.deep_view()),
            forall|t: int|
                0 <= t < k ==> !spec_contains_word(spec_lower(name@), offensive.deep_view()[t]),
        decreases offensive.len() - k,
    {
        proof {
            assert(offensive.deep_view()[k as int] == offensive@[k as int]@);
        }
        if contains_word(lowered.as_str(), offensive[k].as_str()) {
            proof {
                assert(spec_contains_word(spec_lower(name@), offensive.deep_view()[k as int]));
                assert(spec_offensive(name@, offensive.deep_view()));
            }
            return Err(RegistrationError::Offensive);
        }
        k = k + 1;
    }
    proof {
        if spec_offensive(name@, offensive.deep_view()) {
            let t = choose|t: int|
                0 <= t < offensive.deep_view().len() && spec_contains_word(
                    spec_lower(name@),
                    offensive.deep_view()[t],
                );
            assert(false);
        }
    }
    Ok(())
}

/// Relies on rand::Rng::gen_range over the thread-local generator: the
/// result lies below the bound, as its documentation states; which value
/// comes back is chance, so nothing more is promised.
#[verifier::external_body]
fn random_index(bound: usize) -> (r: usize)
    requires
        bound > 0,
    ensures
        r < bound,
{
    rand::Rng::gen_range(&mut rand::thread_rng(), 0..bound)
}

/// Draws a fresh secret of `size` characters from the 62-character
/// alphabet of digits and letters.  Which characters come out is chance;
/// the length and the alphabet are guaranteed.
pub fn generate(size: usize) -> (r: String)
    ensures
        r@.len() == size,
        forall|i: int|
            0 <= i < r@.len() ==> spec_is_digit(#[trigger] r@[i]) || spec_is_letter(r@[i]),
{
    let mut r = String::new();
    let mut i: usize = 0;
    while i < size
        invariant
            i <= size,
            r@.len() == i,
            forall|k: int|
                0 <= k < r@.len() ==> spec_is_digit(#[trigger] r@[k]) || spec_is_letter(r@[k]),
        decreases size - i,
    {
        let idx = random_index(62);
        let c = if idx < 10 {
            (('0' as u8) + (idx as u8)) as char
        } else if idx < 36 {
            (('a' as u8) + ((idx - 10) as u8)) as char
        } else {
            (('A' as u8) + ((idx - 36) as u8)) as char
        };
        proof {
            assert(spec_is_digit(c) || spec_is_letter(c));
        }
        push_char(&mut r, c);
        i = i + 1;
    }
    r
}

/// Draws a fresh interface key of `length` letters.  Which letters come
/// out is chance; the length and the alphabet are guaranteed.
pub fn generate_api_key(length: usize) -> (r: String)
    ensures
        r@.len() == length,
        forall|i: int| 0 <= i < r@.len() ==> spec_is_letter(#[trigger] r@[i]),
{
    let mut r = String::new();
    let mut i: usize = 0;
    while i < length
        invariant
            i <= length,
            r@.len() == i,
            forall|k: int| 0 <= k < r@.len() ==> spec_is_letter(#[trigger] r@[k]),
        decreases length - i,
    {
        let idx = random_index(52);
        let c = if idx < 26 {
            (('A' as u8) + (idx as u8)) as char
        } else {
            (('a' as u8) + ((idx - 26) as u8)) as char
        };
        proof {
            assert(spec_is_letter(c));
        }
        push_char(&mut r, c);
        i = i + 1;
    }
    r
}

} // verus!
