//! The security rules of the `/api/5` routes: HTTP Basic authentication
//! (the password compared in constant time) and trusted-`Host` validation.
use vstd::prelude::*;
use vstd::utf8::{decode_utf8, valid_utf8};
use base64::Engine;
use crate::plugins::linux::opt_text;
use crate::text::{chars_of, find_char, find_in, starts_with_in, str_eq, string_of, trim, trim_in};

verus! {

/// The bytes that `BASE64_STANDARD` decodes `input` to (standard alphabet,
/// canonical padding), `None` when it is no such encoding.
pub uninterp spec fn base64_decoded(input: Seq<char>) -> Option<Seq<u8>>;

/// `base64::prelude::BASE64_STANDARD.decode`. Claims: the result is
/// `base64_decoded` of the input, the decoding that the engine defines
/// (its rules are not restated here).
#[verifier::external_body]
fn base64_decode(input: &str) -> (r: Option<Vec<u8>>)
    ensures
        match r {
            Some(v) => base64_decoded(input@) == Some(v@),
            None => base64_decoded(input@) is None,
        },
{
    base64::prelude::BASE64_STANDARD.decode(input).ok()
}

/// `String::from_utf8`: the text that `bytes` encode in UTF-8, `None` when
/// they are not valid UTF-8.
#[verifier::external_body]
fn utf8_string(bytes: Vec<u8>) -> (r: Option<String>)
    ensures
        r is Some <==> valid_utf8(bytes@),
        r matches Some(s) ==> s@ == decode_utf8(bytes@),
{
    String::from_utf8(bytes).ok()
}

/// `constant_time_eq::constant_time_eq`: whether the two byte strings are
/// equal, compared in time that does not depend on where they differ.
#[verifier::external_body]
fn bytes_equal(a: &[u8], b: &[u8]) -> (r: bool)
    ensures
        r == (a@ == b@),
{
    constant_time_eq::constant_time_eq(a, b)
}

/// The password in the decoded credentials of a Basic header: the text
/// after the first `:`, when the bytes are UTF-8 and hold a `:`.
pub open spec fn password_in(b: Seq<u8>) -> Option<Seq<char>> {
    if valid_utf8(b) {
        let t = decode_utf8(b);
        let i = find_char(t, ':');
        if i < t.len() {
            Some(t.skip(i + 1int))
        } else {
            None
        }
    } else {
        None
    }
}

/// The password of an `Authorization: Basic <base64(user:pass)>` header
/// value: the part after the first `:` of the decoded text. The user name
/// is accepted as it is: only the password is checked.
pub open spec fn basic_password_of(header: Option<Seq<char>>) -> Option<Seq<char>> {
    match header {
        None => None,
        Some(v) => if v.len() >= 6 && v.take(6) == "Basic "@ {
            match base64_decoded(trim(v.skip(6))) {
                None => None,
                Some(b) => password_in(b),
            }
        } else {
            None
        },
    }
}

/// The password in the decoded `user:pass` bytes of a Basic header (`None`
/// when they are not UTF-8 or hold no `:`).
pub fn password_of_decoded(bytes: Vec<u8>) -> (r: Option<String>)
    ensures
        match r {
            Some(p) => password_in(bytes@) == Some(p@),
            None => password_in(bytes@) is None,
        },
{
    let text = match utf8_string(bytes) {
        Some(t) => t,
        None => return None,
    };
    let tc = chars_of(text.as_str());
    let i = find_in(&tc, 0, tc.len(), ':');
    assert(tc@.subrange(0, tc@.len() as int) =~= tc@);
    if i >= tc.len() {
        return None;
    }
    let password = string_of(&tc, i + 1, tc.len());
    assert(password@ =~= tc@.skip(i + 1));
    Some(password)
}

/// The password in the value of an `Authorization` header (`None` when
/// the request has none, or one that is not visible ASCII).
pub fn basic_password(header: Option<&str>) -> (r: Option<String>)
    ensures
        match r {
            Some(p) => basic_password_of(opt_text(header)) == Some(p@),
            None => basic_password_of(opt_text(header)) is None,
        },
{
    let value = match header {
        Some(v) => v,
        None => return None,
    };
    let cs = chars_of(value);
    let prefix = chars_of("Basic ");
    proof {
        reveal_strlit("Basic ");
    }
    if !starts_with_in(&cs, 0, cs.len(), &prefix) {
        assert(!(value@.len() >= 6 && value@.take(6) == "Basic "@)) by {
            if value@.len() >= 6 && value@.take(6) == "Basic "@ {
                assert(cs@.subrange(0, 6) =~= cs@.take(6));
            }
        }
        return None;
    }
    assert(cs@.subrange(0, 6) =~= cs@.take(6));
    let (a, b) = trim_in(&cs, 6, cs.len());
    assert(cs@.subrange(6, cs@.len() as int) =~= value@.skip(6));
    let encoded = string_of(&cs, a, b);
    match base64_decode(encoded.as_str()) {
        Some(bytes) => password_of_decoded(bytes),
        None => None,
    }
}

/// Whether a request with this `Authorization` header value passes: with
/// no password configured every request does (safe because startup refuses
/// a non-loopback bind without one); otherwise the header's password must
/// equal the configured one.
pub fn authorized(password: Option<&str>, header: Option<&str>) -> (r: bool)
    ensures
        r == match password {
            None => true,
            Some(e) => basic_password_of(opt_text(header)) == Some(e@),
        },
{
    let expected = match password {
        Some(e) => e,
        None => return true,
    };
    match basic_password(header) {
        Some(provided) => {
            let r = bytes_equal(provided.as_str().as_bytes(), expected.as_bytes());
            proof {
                vstd::utf8::encode_utf8_decode_utf8(provided@);
                vstd::utf8::encode_utf8_decode_utf8(expected@);
            }
            r
        },
        None => false,
    }
}

/// The position of the last `c` in `s`.
pub open spec fn rfind_char(s: Seq<char>, c: char) -> Option<int>
    decreases s.len(),
{
    if s.len() == 0 {
        None
    } else if s.last() == c {
        Some(s.len() - 1)
    } else {
        rfind_char(s.drop_last(), c)
    }
}

/// A `Host` value without its port: the address inside the brackets of an
/// IPv6 literal (`[::1]:80`, `[::1]`), else everything before the last
/// `:`.
pub open spec fn bare_host(h: Seq<char>) -> Seq<char> {
    if h.len() > 0 && h[0] == '[' {
        let rest = h.skip(1);
        rest.take(find_char(rest, ']') as int)
    } else {
        match rfind_char(h, ':') {
            Some(i) => h.take(i),
            None => h,
        }
    }
}

fn rfind_in(cs: &Vec<char>, c: char) -> (r: Option<usize>)
    ensures
        match r {
            Some(i) => rfind_char(cs@, c) == Some(i as int),
            None => rfind_char(cs@, c) is None,
        },
        r matches Some(i) ==> i < cs@.len(),
{
    let mut j = cs.len();
    assert(cs@.take(j as int) =~= cs@);
    while j > 0 && cs[j - 1] != c
        invariant
            0 <= j <= cs@.len(),
            rfind_char(cs@, c) == rfind_char(cs@.take(j as int), c),
        decreases j,
    {
        assert(cs@.take(j as int).drop_last() =~= cs@.take(j - 1));
        j = j - 1;
    }
    if j == 0 {
        assert(cs@.take(0) =~= Seq::<char>::empty());
        None
    } else {
        Some(j - 1)
    }
}

pub fn strip_port(host: &str) -> (r: String)
    ensures
        r@ == bare_host(host@),
{
    let cs = chars_of(host);
    if cs.len() > 0 && cs[0] == '[' {
        let i = find_in(&cs, 1, cs.len(), ']');
        assert(cs@.subrange(1, cs@.len() as int) =~= host@.skip(1));
        let r = string_of(&cs, 1, 1 + i);
        assert(r@ =~= host@.skip(1).take(i as int));
        return r;
    }
    assert(cs@.take(cs@.len() as int) =~= cs@);
    match rfind_in(&cs, ':') {
        Some(i) => {
            let r = string_of(&cs, 0, i);
            assert(r@ =~= host@.take(i as int));
            r
        },
        None => string_of(&cs, 0, cs.len()),
    }
}

/// Whether the `Host` value passes: a missing one does (a DNS-rebinding
/// attack always carries a forged one), an empty allow-list disables the
/// check, and otherwise the value, with or without its port, must be on the
/// list.
pub open spec fn host_ok(host: Option<Seq<char>>, trusted: Seq<Seq<char>>) -> bool {
    ||| host is None
    ||| trusted.len() == 0
    ||| exists|i: int| 0 <= i < trusted.len() && #[trigger] host_matches(trusted[i], host->0)
}

/// An allow-list entry names the host, with or without its port.
pub open spec fn host_matches(t: Seq<char>, h: Seq<char>) -> bool {
    t == h || t == bare_host(h)
}

pub fn host_allowed(host: Option<&str>, trusted: &[String]) -> (r: bool)
    ensures
        r == host_ok(opt_text(host), crate::text::texts(trusted@)),
{
    let h = match host {
        None => return true,
        Some(h) => h,
    };
    if trusted.len() == 0 {
        return true;
    }
    let bare = strip_port(h);
    let ghost ts = crate::text::texts(trusted@);
    let mut i: usize = 0;
    while i < trusted.len()
        invariant
            0 <= i <= trusted@.len(),
            ts == crate::text::texts(trusted@),
            bare@ == bare_host(h@),
            opt_text(host) == Some(h@),
            forall|j: int| 0 <= j < i ==> !#[trigger] host_matches(ts[j], h@),
        decreases trusted@.len() - i,
    {
        let t = trusted[i].as_str();
        assert(ts[i as int] == t@);
        if str_eq(t, h) || str_eq(t, bare.as_str()) {
            assert(host_matches(ts[i as int], h@));
            assert(i < ts.len());
            assert(opt_text(host)->0 == h@);
            assert(host_ok(opt_text(host), ts));
            return true;
        }
        i = i + 1;
    }
    false
}

} // verus!
