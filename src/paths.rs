//! Path normaliser: the canonical spelling of a path or URI, and the
//! ordered candidate spellings tried when matching records.

use vstd::prelude::*;
use crate::text::{chars_of, string_of, has_prefix, starts_with, slice_vec, remove_all, remove_all_exec};

verus! {

/// What percent-decoding `s` yields; `None` where the decoded bytes are not
/// UTF-8.
pub uninterp spec fn percent_decoded(s: Seq<char>) -> Option<Seq<char>>;

/// Relies on `urlencoding::decode`: percent-decodes `s`, failing only where
/// the decoded bytes are not UTF-8; a string without `%` comes back as is.
#[verifier::external_body]
fn percent_decode(s: &str) -> (r: Option<String>)
    ensures
        match r {
            Some(t) => percent_decoded(s@) == Some(t@),
            None => percent_decoded(s@) is None,
        },
        (forall|i: int| 0 <= i < s@.len() ==> s@[i] != '%') ==> (r is Some && r->0@ == s@),
{
    match urlencoding::decode(s) {
        Ok(d) => Some(d.into_owned()),
        Err(_) => None,
    }
}

/// The percent-decoded form of `s`, or `s` itself where decoding fails.
pub open spec fn decoded_or_raw(s: Seq<char>) -> Seq<char> {
    match percent_decoded(s) {
        Some(t) => t,
        None => s,
    }
}

/// Percent-decodes `s`, falling back to `s` unchanged.
pub fn decode_or_raw(s: &str) -> (r: String)
    ensures
        r@ == decoded_or_raw(s@),
        (forall|i: int| 0 <= i < s@.len() ==> s@[i] != '%') ==> r@ == s@,
{
    match percent_decode(s) {
        Some(t) => t,
        None => s.to_string(),
    }
}

/// The local-file scheme marker `file://`.
pub open spec fn file_scheme() -> Seq<char> {
    seq!['f', 'i', 'l', 'e', ':', '/', '/']
}

/// The remote scheme marker `vscode-remote://`.
pub open spec fn remote_scheme() -> Seq<char> {
    seq!['v', 's', 'c', 'o', 'd', 'e', '-', 'r', 'e', 'm', 'o', 't', 'e', ':', '/', '/']
}

pub fn file_scheme_chars() -> (r: Vec<char>)
    ensures
        r@ == file_scheme(),
{
    let r = vec!['f', 'i', 'l', 'e', ':', '/', '/'];
    assert(r@ =~= file_scheme());
    r
}

pub fn remote_scheme_chars() -> (r: Vec<char>)
    ensures
        r@ == remote_scheme(),
{
    let r = vec!['v', 's', 'c', 'o', 'd', 'e', '-', 'r', 'e', 'm', 'o', 't', 'e', ':', '/', '/'];
    assert(r@ =~= remote_scheme());
    r
}

/// A path separator, either way round.
pub open spec fn is_sep(c: char) -> bool {
    c == '/' || c == '\\'
}

/// `s` without a leading `file://`.
pub open spec fn strip_file_scheme(s: Seq<char>) -> Seq<char> {
    if has_prefix(s, file_scheme()) {
        s.skip(file_scheme().len() as int)
    } else {
        s
    }
}

/// `s` with every `file://` removed where it starts with one, with
/// `file://` put in front otherwise.
pub open spec fn toggle_file_scheme(s: Seq<char>) -> Seq<char> {
    if has_prefix(s, file_scheme()) {
        remove_all(s, file_scheme())
    } else {
        file_scheme() + s
    }
}

/// `s` without its trailing separators.
pub open spec fn trim_trailing_seps(s: Seq<char>) -> Seq<char>
    decreases s.len(),
{
    if s.len() > 0 && is_sep(s.last()) {
        trim_trailing_seps(s.drop_last())
    } else {
        s
    }
}

/// `s` without its trailing `c` characters.
pub open spec fn trim_trailing_char(s: Seq<char>, c: char) -> Seq<char>
    decreases s.len(),
{
    if s.len() > 0 && s.last() == c {
        trim_trailing_char(s.drop_last(), c)
    } else {
        s
    }
}

/// `s` with every `from` replaced by `to`.
pub open spec fn replace_char(s: Seq<char>, from: char, to: char) -> Seq<char> {
    s.map_values(|c: char| if c == from { to } else { c })
}

/// The canonical spelling of a raw path or URI: percent-decoded (or raw
/// where that fails), without a leading `file://`, without trailing
/// separators, and with `\` turned into `/`. A `vscode-remote://` scheme is
/// kept.
pub open spec fn spec_normalize(raw: Seq<char>) -> Seq<char> {
    replace_char(trim_trailing_seps(strip_file_scheme(decoded_or_raw(raw))), '\\', '/')
}

/// `v` with `x` appended unless already present.
pub open spec fn push_new(v: Seq<Seq<char>>, x: Seq<char>) -> Seq<Seq<char>> {
    if v.contains(x) {
        v
    } else {
        v.push(x)
    }
}

/// The candidate spellings of `raw` tried, in this order, when matching a
/// record: `raw`, its normal form, `raw` with `file://` toggled, with `\`
/// turned into `/`, with `/` turned into `\`, without a two-character drive
/// prefix (where its second character is `:`), and without its trailing
/// `/` and then its trailing `\`; each kept only at its first appearance.
pub open spec fn spec_variations(raw: Seq<char>) -> Seq<Seq<char>> {
    let v1 = push_new(seq![raw], spec_normalize(raw));
    let v2 = push_new(v1, toggle_file_scheme(raw));
    let v3 = push_new(v2, replace_char(raw, '\\', '/'));
    let v4 = push_new(v3, replace_char(raw, '/', '\\'));
    let v5 = if raw.len() >= 2 && raw[1] == ':' {
        push_new(v4, raw.skip(2))
    } else {
        v4
    };
    push_new(v5, trim_trailing_char(trim_trailing_char(raw, '/'), '\\'))
}

/// The views of a list of strings.
pub open spec fn views(v: Seq<String>) -> Seq<Seq<char>> {
    v.map_values(|s: String| s@)
}

fn strip_file_scheme_exec(s: &[char]) -> (r: Vec<char>)
    ensures
        r@ == strip_file_scheme(s@),
{
    let fs = file_scheme_chars();
    if starts_with(s, &fs) {
        slice_vec(s, 7, s.len())
    } else {
        slice_vec(s, 0, s.len())
    }
}

fn toggle_file_scheme_exec(s: &[char]) -> (r: Vec<char>)
    ensures
        r@ == toggle_file_scheme(s@),
{
    let mut fs = file_scheme_chars();
    if starts_with(s, &fs) {
        remove_all_exec(s, &fs)
    } else {
        crate::text::push_all(&mut fs, s);
        fs
    }
}

pub fn trim_trailing_seps_exec(s: &[char]) -> (r: Vec<char>)
    ensures
        r@ == trim_trailing_seps(s@),
{
    let mut n: usize = s.len();
    assert(s@.subrange(0, s.len() as int) =~= s@);
    while n > 0 && (s[n - 1] == '/' || s[n - 1] == '\\')
        invariant
            n <= s.len(),
            trim_trailing_seps(s@.subrange(0, n as int)) == trim_trailing_seps(s@),
        decreases n,
    {
        assert(s@.subrange(0, n as int).drop_last() =~= s@.subrange(0, n - 1));
        n = n - 1;
    }
    slice_vec(s, 0, n)
}

fn trim_trailing_char_exec(s: &[char], c: char) -> (r: Vec<char>)
    ensures
        r@ == trim_trailing_char(s@, c),
{
    let mut n: usize = s.len();
    assert(s@.subrange(0, s.len() as int) =~= s@);
    while n > 0 && s[n - 1] == c
        invariant
            n <= s.len(),
            trim_trailing_char(s@.subrange(0, n as int), c) == trim_trailing_char(s@, c),
        decreases n,
    {
        assert(s@.subrange(0, n as int).drop_last() =~= s@.subrange(0, n - 1));
        n = n - 1;
    }
    slice_vec(s, 0, n)
}

fn replace_char_exec(s: &[char], from: char, to: char) -> (r: Vec<char>)
    ensures
        r@ == replace_char(s@, from, to),
{
    let mut r: Vec<char> = Vec::new();
    let mut i: usize = 0;
    while i < s.len()
        invariant
            i <= s.len(),
            r@ == replace_char(s@.subrange(0, i as int), from, to),
        decreases s.len() - i,
    {
        let c = s[i];
        r.push(if c == from { to } else { c });
        i = i + 1;
        assert(r@ =~= replace_char(s@.subrange(0, i as int), from, to));
    }
    assert(s@.subrange(0, s.len() as int) =~= s@);
    r
}

/// The canonical spelling of `uri_or_path`, the key that records are
/// matched by.
pub fn normalize_path(uri_or_path: &str) -> (r: String)
    ensures
        r@ == spec_normalize(uri_or_path@),
{
    let decoded = decode_or_raw(uri_or_path);
    let d = chars_of(decoded.as_str());
    let stripped = strip_file_scheme_exec(&d);
    let trimmed = trim_trailing_seps_exec(&stripped);
    let unified = replace_char_exec(&trimmed, '\\', '/');
    string_of(&unified)
}

fn push_new_exec(v: &mut Vec<String>, x: String)
    ensures
        views(final(v)@) == push_new(views(old(v)@), x@),
{
    let mut i: usize = 0;
    while i < v.len()
        invariant
            i <= v.len(),
            forall|j: int| 0 <= j < i ==> v@[j]@ != x@,
        decreases v.len() - i,
    {
        if v[i] == x {
            assert(views(v@)[i as int] == x@);
            assert(views(v@).contains(x@));
            return;
        }
        i = i + 1;
    }
    assert(!views(v@).contains(x@)) by {
        if views(v@).contains(x@) {
            let k = choose|k: int| 0 <= k < views(v@).len() && views(v@)[k] == x@;
            assert(v@[k]@ == x@);
        }
    }
    let ghost before = v@;
    v.push(x);
    assert(views(v@) =~= views(before).push(x@));
}

/// The candidate spellings of `path` tried when matching a record, in
/// order and without repeats.
pub fn generate_path_variations(path: &str) -> (r: Vec<String>)
    ensures
        views(r@) == spec_variations(path@),
{
    let p = chars_of(path);
    let mut variations: Vec<String> = Vec::new();
    variations.push(path.to_string());
    assert(views(variations@) =~= seq![path@]);
    push_new_exec(&mut variations, normalize_path(path));
    push_new_exec(&mut variations, string_of(&toggle_file_scheme_exec(&p)));
    push_new_exec(&mut variations, string_of(&replace_char_exec(&p, '\\', '/')));
    push_new_exec(&mut variations, string_of(&replace_char_exec(&p, '/', '\\')));
    if p.len() >= 2 && p[1] == ':' {
        push_new_exec(&mut variations, string_of(&slice_vec(&p, 2, p.len())));
        assert(p@.subrange(2, p@.len() as int) =~= p@.skip(2));
    }
    let no_slash = trim_trailing_char_exec(&p, '/');
    push_new_exec(&mut variations, string_of(&trim_trailing_char_exec(&no_slash, '\\')));
    variations
}

} // verus!
