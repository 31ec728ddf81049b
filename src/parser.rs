//! Path parser: classifies a raw path or URI and takes a remote authority
//! apart into host, user, port and the path on the remote side.

use vstd::prelude::*;
use crate::error::WorkspaceError;
use crate::json::{Json, json_parsed, parse_json};
use crate::text::{chars_of, string_of, first_index_of, has_prefix};
use crate::paths::decoded_or_raw;

verus! {

/// What a recorded path names.
#[derive(Debug, Clone, Copy, PartialEq, Eq)]
pub enum WorkspaceType {
    Folder,
    File,
    Workspace,
}

/// The parsed view of one path or URI.
#[derive(Debug, Clone)]
pub struct WorkspacePathInfo {
    /// The path as it was recorded.
    pub original_path: String,
    pub workspace_type: WorkspaceType,
    /// The percent-decoded authority, for a remote URI.
    pub remote_authority: Option<String>,
    pub remote_host: Option<String>,
    pub remote_user: Option<String>,
    pub remote_port: Option<u16>,
    /// The path on the local or remote side.
    pub path: String,
    /// The path inside a container, before a host path replaced it.
    pub container_path: Option<String>,
    pub label: Option<String>,
    /// Ordered tags such as `remote`, `ssh`, `devcontainer`.
    pub tags: Vec<String>,
}

/// The mathematical content of a `WorkspacePathInfo`.
pub struct PathInfoView {
    pub original_path: Seq<char>,
    pub workspace_type: WorkspaceType,
    pub remote_authority: Option<Seq<char>>,
    pub remote_host: Option<Seq<char>>,
    pub remote_user: Option<Seq<char>>,
    pub remote_port: Option<u16>,
    pub path: Seq<char>,
    pub container_path: Option<Seq<char>>,
    pub label: Option<Seq<char>>,
    pub tags: Seq<Seq<char>>,
}

/// The view of an optional string.
pub open spec fn opt_view(o: Option<String>) -> Option<Seq<char>> {
    match o {
        Some(s) => Some(s@),
        None => None,
    }
}

impl View for WorkspacePathInfo {
    type V = PathInfoView;

    open spec fn view(&self) -> PathInfoView {
        PathInfoView {
            original_path: self.original_path@,
            workspace_type: self.workspace_type,
            remote_authority: opt_view(self.remote_authority),
            remote_host: opt_view(self.remote_host),
            remote_user: opt_view(self.remote_user),
            remote_port: self.remote_port,
            path: self.path@,
            container_path: opt_view(self.container_path),
            label: opt_view(self.label),
            tags: crate::paths::views(self.tags@),
        }
    }
}

pub open spec fn is_digit(c: char) -> bool {
    '0' <= c && c <= '9'
}

/// The decimal value of a run of digits.
pub open spec fn dec_value(d: Seq<char>) -> nat
    decreases d.len(),
{
    if d.len() == 0 {
        0
    } else {
        dec_value(d.drop_last()) * 10 + ((d.last() as int - '0' as int) as nat)
    }
}

/// Every character of `d` is a decimal digit.
pub open spec fn all_digits(d: Seq<char>) -> bool {
    forall|i: int| 0 <= i < d.len() ==> is_digit(#[trigger] d[i])
}

/// `s` without one leading `+`.
pub open spec fn unsigned_part(s: Seq<char>) -> Seq<char> {
    if s.len() > 0 && s[0] == '+' {
        s.skip(1)
    } else {
        s
    }
}

/// What `str::parse::<u16>` accepts: an optional `+`, then one or more
/// decimal digits whose value fits in 16 bits.
pub open spec fn spec_parse_u16(s: Seq<char>) -> Option<u16> {
    let d = unsigned_part(s);
    if d.len() > 0 && all_digits(d) && dec_value(d) <= 65535 {
        Some(dec_value(d) as u16)
    } else {
        None
    }
}

proof fn lemma_dec_value_step(d: Seq<char>, i: int)
    requires
        0 <= i < d.len(),
        is_digit(d[i]),
    ensures
        dec_value(d.take(i + 1)) == dec_value(d.take(i)) * 10 + ((d[i] as int - '0' as int) as nat),
        dec_value(d.take(i + 1)) >= dec_value(d.take(i)),
{
    assert(d.take(i + 1).drop_last() =~= d.take(i));
}

/// Reads a port number the way `str::parse::<u16>` does.
pub fn parse_u16(s: &[char]) -> (r: Option<u16>)
    ensures
        r == spec_parse_u16(s@),
{
    let start: usize = if s.len() > 0 && s[0] == '+' { 1 } else { 0 };
    let ghost d = unsigned_part(s@);
    assert(d =~= s@.skip(start as int));
    if start >= s.len() {
        return None;
    }
    let mut acc: u64 = 0;
    let mut big = false;
    let mut i: usize = start;
    assert(d.take(0) =~= Seq::<char>::empty());
    while i < s.len()
        invariant
            start <= i <= s.len(),
            start < s.len(),
            d == unsigned_part(s@),
            start == (if s@.len() > 0 && s@[0] == '+' { 1usize } else { 0usize }),
            d =~= s@.skip(start as int),
            forall|j: int| 0 <= j < i - start ==> is_digit(#[trigger] d[j]),
            !big ==> acc == dec_value(d.take(i - start)) && acc <= 65535,
            big ==> dec_value(d.take(i - start)) > 65535,
        decreases s.len() - i,
    {
        let c = s[i];
        if !('0' <= c && c <= '9') {
            assert(!is_digit(d[i - start]));
            assert(!all_digits(d));
            return None;
        }
        proof {
            lemma_dec_value_step(d, i - start);
        }
        if !big {
            acc = acc * 10 + (c as u64 - '0' as u64);
            if acc > 65535 {
                big = true;
            }
        }
        i = i + 1;
    }
    assert(d.take(d.len() as int) =~= d);
    if big {
        None
    } else {
        Some(acc as u16)
    }
}

/// An ASCII hex digit.
pub open spec fn is_hex(c: char) -> bool {
    ('0' <= c && c <= '9') || ('a' <= c && c <= 'f') || ('A' <= c && c <= 'F')
}

/// The value of a hex digit.
pub open spec fn hex_val(c: char) -> nat {
    if '0' <= c && c <= '9' {
        ((c as int - '0' as int) as nat)
    } else if 'a' <= c && c <= 'f' {
        ((c as int - 'a' as int + 10) as nat)
    } else {
        ((c as int - 'A' as int + 10) as nat)
    }
}

/// A character that may appear in a hex-encoded authority or in the JSON it
/// encodes: a hex digit or one of `{ } " : ,` and space.
pub open spec fn is_hexish(c: char) -> bool {
    is_hex(c) || c == '{' || c == '}' || c == '"' || c == ':' || c == ',' || c == ' '
}

/// The character whose code is the byte that a pair of hex digits spells.
pub open spec fn hex_pair_char(a: char, b: char) -> char {
    ((hex_val(a) * 16 + hex_val(b)) as u8) as char
}

/// Strict pairwise hex decoding: each pair of hex digits becomes the
/// character with that byte's code; `None` for an odd length or a pair with
/// a non-hex character.
pub open spec fn hex_pairs(s: Seq<char>) -> Option<Seq<char>>
    decreases s.len(),
{
    if s.len() == 0 {
        Some(Seq::empty())
    } else if s.len() == 1 || !is_hex(s[0]) || !is_hex(s[1]) {
        None
    } else {
        match hex_pairs(s.skip(2)) {
            Some(rest) => Some(seq![hex_pair_char(s[0], s[1])] + rest),
            None => None,
        }
    }
}

/// Starts with `{`.
pub open spec fn starts_brace(s: Seq<char>) -> bool {
    s.len() > 0 && s[0] == '{'
}

/// The character-class sniffing that decides whether an authority is hex:
/// where every character is a hex digit or JSON punctuation and `s` does not
/// already start with `{`, strict hex decoding is tried; its result is kept
/// only where it starts with `{`, and a malformed hex string is an error.
/// In every other case `s` comes back unchanged.
pub open spec fn spec_decode_hex(s: Seq<char>) -> Result<Seq<char>, ()> {
    if (forall|i: int| 0 <= i < s.len() ==> is_hexish(#[trigger] s[i])) && !starts_brace(s) {
        match hex_pairs(s) {
            None => Err(()),
            Some(d) => if starts_brace(d) { Ok(d) } else { Ok(s) },
        }
    } else {
        Ok(s)
    }
}

fn is_hex_exec(c: char) -> (r: bool)
    ensures
        r == is_hex(c),
{
    ('0' <= c && c <= '9') || ('a' <= c && c <= 'f') || ('A' <= c && c <= 'F')
}

fn hex_val_exec(c: char) -> (r: u8)
    requires
        is_hex(c),
    ensures
        r as nat == hex_val(c),
        r < 16,
{
    if '0' <= c && c <= '9' {
        (c as u32 - '0' as u32) as u8
    } else if 'a' <= c && c <= 'f' {
        (c as u32 - 'a' as u32 + 10) as u8
    } else {
        (c as u32 - 'A' as u32 + 10) as u8
    }
}

proof fn lemma_hex_pairs_step(s: Seq<char>, i: int)
    requires
        0 <= i,
        i + 2 <= s.len(),
        is_hex(s[i]),
        is_hex(s[i + 1]),
    ensures
        hex_pairs(s.skip(i)) == match hex_pairs(s.skip(i + 2)) {
            Some(rest) => Some(seq![hex_pair_char(s[i], s[i + 1])] + rest),
            None => None::<Seq<char>>,
        },
{
    assert(s.skip(i).skip(2) =~= s.skip(i + 2));
    assert(s.skip(i)[0] == s[i]);
    assert(s.skip(i)[1] == s[i + 1]);
}

/// Decodes `input` from hex where it looks hex-encoded and decodes to a JSON
/// object; see `spec_decode_hex` for the exact rule. This is a heuristic on
/// the characters present, not a tagged encoding.
pub fn decode_hex_if_needed(input: &str) -> (r: Result<String, WorkspaceError>)
    ensures
        match spec_decode_hex(input@) {
            Ok(d) => r is Ok && r->Ok_0@ == d,
            Err(_) => r is Err && r->Err_0 is Decode,
        },
{
    let s = chars_of(input);
    let mut i: usize = 0;
    let mut all_hexish = true;
    while i < s.len()
        invariant
            i <= s.len(),
            s@ == input@,
            all_hexish == (forall|j: int| 0 <= j < i ==> is_hexish(#[trigger] s@[j])),
        decreases s.len() - i,
    {
        let c = s[i];
        if !(is_hex_exec(c) || c == '{' || c == '}' || c == '"' || c == ':' || c == ',' || c == ' ') {
            all_hexish = false;
        }
        i = i + 1;
    }
    if !all_hexish || (s.len() > 0 && s[0] == '{') {
        return Ok(input.to_string());
    }
    // Decode pairs from the end so that each step extends a suffix.
    if s.len() % 2 == 1 {
        proof { lemma_hex_pairs_odd(s@); }
        return Err(WorkspaceError::Decode("odd number of hex digits".to_string()));
    }
    let mut out_rev: Vec<char> = Vec::new();
    let mut k: usize = s.len();
    assert(s@.skip(s.len() as int) =~= Seq::<char>::empty());
    while k > 0
        invariant
            k <= s.len(),
            k % 2 == 0,
            s@ == input@,
            s.len() % 2 == 0,
            forall|j: int| 0 <= j < s@.len() ==> is_hexish(#[trigger] s@[j]),
            !starts_brace(s@),
            hex_pairs(s@.skip(k as int)) == Some(out_rev@.reverse()),
        decreases k,
    {
        let a = s[k - 2];
        let b = s[k - 1];
        if !is_hex_exec(a) || !is_hex_exec(b) {
            proof { lemma_hex_pairs_bad(s@, (k - 2) as int); }
            return Err(WorkspaceError::Decode("invalid hex digit".to_string()));
        }
        let byte: u8 = hex_val_exec(a) * 16 + hex_val_exec(b);
        proof {
            lemma_hex_pairs_step(s@, (k - 2) as int);
        }
        let ghost before = out_rev@;
        out_rev.push(byte as char);
        assert(out_rev@.reverse() =~= seq![hex_pair_char(a, b)] + before.reverse());
        k = k - 2;
    }
    assert(s@.skip(0) =~= s@);
    let mut out: Vec<char> = Vec::new();
    let mut j: usize = out_rev.len();
    while j > 0
        invariant
            j <= out_rev.len(),
            out@ == out_rev@.reverse().take(out_rev.len() - j),
            hex_pairs(s@) == Some(out_rev@.reverse()),
            s@ == input@,
            forall|j: int| 0 <= j < s@.len() ==> is_hexish(#[trigger] s@[j]),
            !starts_brace(s@),
        decreases j,
    {
        out.push(out_rev[j - 1]);
        j = j - 1;
        assert(out@ =~= out_rev@.reverse().take(out_rev.len() - j));
    }
    assert(out@ =~= out_rev@.reverse());
    if out.len() > 0 && out[0] == '{' {
        Ok(string_of(&out))
    } else {
        Ok(input.to_string())
    }
}

proof fn lemma_hex_pairs_odd(s: Seq<char>)
    requires
        s.len() % 2 == 1,
    ensures
        hex_pairs(s) is None,
    decreases s.len(),
{
    if s.len() > 1 && is_hex(s[0]) && is_hex(s[1]) {
        lemma_hex_pairs_odd(s.skip(2));
    }
}

proof fn lemma_hex_pairs_bad(s: Seq<char>, i: int)
    requires
        0 <= i,
        i + 2 <= s.len(),
        i % 2 == 0,
        !is_hex(s[i]) || !is_hex(s[i + 1]),
    ensures
        hex_pairs(s) is None,
    decreases i,
{
    if i == 0 {
    } else if is_hex(s[0]) && is_hex(s[1]) {
        assert(s.skip(2)[i - 2] == s[i]);
        assert(s.skip(2)[i - 1] == s[i + 1]);
        lemma_hex_pairs_bad(s.skip(2), i - 2);
    }
}


/// Position of the last occurrence of `c` in `s`.
pub open spec fn last_index_of(s: Seq<char>, c: char) -> Option<int> {
    if exists|i: int| 0 <= i < s.len() && s[i] == c {
        Some(choose|i: int| 0 <= i < s.len() && s[i] == c && forall|j: int| i < j < s.len() ==> s[j] != c)
    } else {
        None
    }
}

/// `find_char`'s report agrees with `first_index_of`.
pub proof fn lemma_first_index(s: Seq<char>, c: char, r: Option<usize>)
    requires
        match r {
            Some(i) => i < s.len() && s[i as int] == c && forall|j: int| 0 <= j < i ==> s[j] != c,
            None => forall|j: int| 0 <= j < s.len() ==> s[j] != c,
        },
    ensures
        first_index_of(s, c) == match r {
            Some(i) => Some(i as int),
            None => None::<int>,
        },
{
    if let Some(i) = r {
        assert(0 <= i < s.len() && s[i as int] == c && forall|j: int| 0 <= j < i ==> s[j] != c);
        let k = choose|k: int| 0 <= k < s.len() && s[k] == c && forall|j: int| 0 <= j < k ==> s[j] != c;
        assert(k == i as int);
    }
}

proof fn lemma_last_index(s: Seq<char>, c: char, r: Option<usize>)
    requires
        match r {
            Some(i) => i < s.len() && s[i as int] == c && forall|j: int| i < j < s.len() ==> s[j] != c,
            None => forall|j: int| 0 <= j < s.len() ==> s[j] != c,
        },
    ensures
        last_index_of(s, c) == match r {
            Some(i) => Some(i as int),
            None => None::<int>,
        },
{
    if let Some(i) = r {
        assert(0 <= i < s.len() && s[i as int] == c && forall|j: int| i < j < s.len() ==> s[j] != c);
        let k = choose|k: int| 0 <= k < s.len() && s[k] == c && forall|j: int| k < j < s.len() ==> s[j] != c;
        assert(k == i as int);
    }
}

/// First occurrence of `c`, as `find_char` reports it and as
/// `first_index_of` states it.
fn find_first(s: &[char], c: char) -> (r: Option<usize>)
    ensures
        first_index_of(s@, c) == match r {
            Some(i) => Some(i as int),
            None => None::<int>,
        },
        match r {
            Some(i) => i < s@.len(),
            None => true,
        },
{
    let r = crate::text::find_char(s, c);
    proof { lemma_first_index(s@, c, r); }
    r
}

pub fn find_last(s: &[char], c: char) -> (r: Option<usize>)
    ensures
        last_index_of(s@, c) == match r {
            Some(i) => Some(i as int),
            None => None::<int>,
        },
        match r {
            Some(i) => i < s@.len(),
            None => true,
        },
{
    let r = crate::text::rfind_char(s, c);
    proof { lemma_last_index(s@, c, r); }
    r
}

/// A port where `after` reads as one, else `after` as a path.
pub open spec fn port_or_path(after: Seq<char>) -> (Option<u16>, Option<Seq<char>>) {
    match spec_parse_u16(after) {
        Some(p) => (Some(p), None),
        None => (None, Some(after)),
    }
}

/// Host, port and path override in the part of a descriptor after `user@`:
/// `host`, `host:port`, `host:/path`, or `host:port:/path` (an empty path
/// after the second `:` overrides nothing).
pub open spec fn host_part_fields(hp: Seq<char>) -> (Seq<char>, Option<u16>, Option<Seq<char>>) {
    match first_index_of(hp, ':') {
        None => (hp, None, None),
        Some(c) => {
            let after = hp.skip(c + 1);
            match first_index_of(after, ':') {
                Some(c2) => (
                    hp.take(c),
                    spec_parse_u16(after.take(c2)),
                    if after.skip(c2 + 1).len() > 0 { Some(after.skip(c2 + 1)) } else { None },
                ),
                None => (hp.take(c), port_or_path(after).0, port_or_path(after).1),
            }
        },
    }
}

/// Host, port and path override of a descriptor without `user@`: `host`,
/// `host:port` or `host:path`.
pub open spec fn bare_host_fields(s: Seq<char>) -> (Seq<char>, Option<u16>, Option<Seq<char>>) {
    match first_index_of(s, ':') {
        None => (s, None, None),
        Some(c) => (s.take(c), port_or_path(s.skip(c + 1)).0, port_or_path(s.skip(c + 1)).1),
    }
}

/// `info` with a host, port and path override applied; an absent port or
/// path leaves the old one.
pub open spec fn with_host_fields(
    info: PathInfoView,
    f: (Seq<char>, Option<u16>, Option<Seq<char>>),
) -> PathInfoView {
    PathInfoView {
        remote_host: Some(f.0),
        remote_port: if f.1 is Some { f.1 } else { info.remote_port },
        path: match f.2 {
            Some(p) => p,
            None => info.path,
        },
        ..info
    }
}

/// `info` updated from a plain SSH descriptor `[user@]host[:port][:path]`.
pub open spec fn spec_apply_ssh(info: PathInfoView, s: Seq<char>) -> PathInfoView {
    match first_index_of(s, '@') {
        Some(a) => with_host_fields(
            PathInfoView { remote_user: Some(s.take(a)), ..info },
            host_part_fields(s.skip(a + 1)),
        ),
        None => with_host_fields(info, bare_host_fields(s)),
    }
}

fn apply_port_or_path(info: &mut WorkspacePathInfo, after: &[char])
    ensures
        final(info)@ == (PathInfoView {
            remote_port: if port_or_path(after@).0 is Some { port_or_path(after@).0 } else { old(info)@.remote_port },
            path: match port_or_path(after@).1 {
                Some(p) => p,
                None => old(info)@.path,
            },
            ..old(info)@
        }),
{
    match parse_u16(after) {
        Some(p) => {
            info.remote_port = Some(p);
        },
        None => {
            info.path = string_of(after);
        },
    }
}

/// Fills host, user, port and path from a plain SSH descriptor
/// `[user@]host[:port][:path]`.
pub fn parse_ssh_remote_string(remote_str: &str, info: &mut WorkspacePathInfo)
    ensures
        final(info)@ == spec_apply_ssh(old(info)@, remote_str@),
{
    let s = chars_of(remote_str);
    match find_first(&s, '@') {
        Some(a) => {
            assert(a < s.len());
            let user = slice_vec_of(&s, 0, a);
            let hp = slice_vec_of(&s, a + 1, s.len());
            assert(user@ == s@.take(a as int));
            assert(hp@ == s@.skip(a + 1));
            info.remote_user = Some(string_of(&user));
            match find_first(&hp, ':') {
                Some(c) => {
                    let host = slice_vec_of(&hp, 0, c);
                    let after = slice_vec_of(&hp, c + 1, hp.len());
                    assert(host@ == hp@.take(c as int));
                    assert(after@ == hp@.skip(c + 1));
                    info.remote_host = Some(string_of(&host));
                    match find_first(&after, ':') {
                        Some(c2) => {
                            let port_str = slice_vec_of(&after, 0, c2);
                            let path_part = slice_vec_of(&after, c2 + 1, after.len());
                            assert(port_str@ == after@.take(c2 as int));
                            assert(path_part@ == after@.skip(c2 + 1));
                            if let Some(port) = parse_u16(&port_str) {
                                info.remote_port = Some(port);
                            }
                            if path_part.len() > 0 {
                                info.path = string_of(&path_part);
                            }
                        },
                        None => {
                            apply_port_or_path(info, &after);
                        },
                    }
                },
                None => {
                    info.remote_host = Some(string_of(&hp));
                },
            }
        },
        None => {
            match find_first(&s, ':') {
                Some(c) => {
                    assert(c < s@.len());
                    assert(c < s.len());
                    let host = slice_vec_of(&s, 0, c);
                    let after = slice_vec_of(&s, c + 1, s.len());
                    assert(host@ == s@.take(c as int));
                    assert(after@ == s@.skip(c + 1));
                    info.remote_host = Some(string_of(&host));
                    apply_port_or_path(info, &after);
                },
                None => {
                    info.remote_host = Some(remote_str.to_string());
                },
            }
        },
    }
}

/// `s[from..to]`, as a vector.
fn slice_vec_of(s: &[char], from: usize, to: usize) -> (r: Vec<char>)
    requires
        from <= to <= s.len(),
    ensures
        r@ == s@.subrange(from as int, to as int),
        from == 0 ==> r@ == s@.take(to as int),
        to == s@.len() ==> r@ == s@.skip(from as int),
{
    let r = crate::text::slice_vec(s, from, to);
    assert(from == 0 ==> r@ =~= s@.take(to as int));
    assert(to == s@.len() ==> r@ =~= s@.skip(from as int));
    r
}


/// Remote settings read from a JSON authority.
pub struct RemoteConfig {
    pub host: Option<String>,
    pub host_path: Option<String>,
    pub scheme: Option<String>,
    pub user: Option<String>,
    pub port: Option<u16>,
}

pub struct RemoteConfigView {
    pub host: Option<Seq<char>>,
    pub host_path: Option<Seq<char>>,
    pub scheme: Option<Seq<char>>,
    pub user: Option<Seq<char>>,
    pub port: Option<u16>,
}

impl View for RemoteConfig {
    type V = RemoteConfigView;

    open spec fn view(&self) -> RemoteConfigView {
        RemoteConfigView {
            host: opt_view(self.host),
            host_path: opt_view(self.host_path),
            scheme: opt_view(self.scheme),
            user: opt_view(self.user),
            port: self.port,
        }
    }
}

/// The text of member `key` of `doc`, where it is a string.
pub open spec fn str_field(doc: Json, key: Seq<char>) -> Option<Seq<char>> {
    match doc.field(key) {
        Some(v) => v.str_view(),
        None => None,
    }
}

/// Member `key` of `doc` read as an unsigned integer.
pub open spec fn u64_field(doc: Json, key: Seq<char>) -> Option<u64> {
    match doc.field(key) {
        Some(Json::Number(n)) => n.uint,
        _ => None,
    }
}

/// The text of `doc.outer.key`, where it is a string.
pub open spec fn nested_str(doc: Json, outer: Seq<char>, key: Seq<char>) -> Option<Seq<char>> {
    match doc.field(outer) {
        Some(o) => str_field(o, key),
        None => None,
    }
}

/// `doc.outer.key` read as an unsigned integer.
pub open spec fn nested_u64(doc: Json, outer: Seq<char>, key: Seq<char>) -> Option<u64> {
    match doc.field(outer) {
        Some(o) => u64_field(o, key),
        None => None,
    }
}

pub open spec fn or_else<T>(a: Option<T>, b: Option<T>) -> Option<T> {
    if a is Some {
        a
    } else {
        b
    }
}

/// The remote settings of a JSON object: host from `settings.host`, else
/// `hostName`; user from `settings.user`, else `user`; port from
/// `settings.port`, else `port`, where it fits in 16 bits; `hostPath` and `scheme`.
/// `None` for a document that is not an object.
pub open spec fn spec_remote_config(doc: Json) -> Option<RemoteConfigView> {
    match doc {
        Json::Object(_) => Some(RemoteConfigView {
            host: or_else(nested_str(doc, "settings"@, "host"@), str_field(doc, "hostName"@)),
            host_path: str_field(doc, "hostPath"@),
            scheme: str_field(doc, "scheme"@),
            user: or_else(nested_str(doc, "settings"@, "user"@), str_field(doc, "user"@)),
            port: match or_else(nested_u64(doc, "settings"@, "port"@), u64_field(doc, "port"@)) {
                Some(p) => if p <= 65535 { Some(p as u16) } else { None },
                None => None,
            },
        }),
        _ => None,
    }
}

/// The remote settings that the JSON text `text` holds.
pub open spec fn spec_json_config(text: Seq<char>) -> Option<RemoteConfigView> {
    match json_parsed(text) {
        Some(doc) => spec_remote_config(doc),
        None => None,
    }
}

/// The text of member `key` of `doc`, where it is a string.
pub(crate) fn str_field_exec(doc: &Json, key: &str) -> (r: Option<String>)
    ensures
        opt_view(r) == str_field(*doc, key@),
{
    match doc.get(key) {
        Some(v) => match v.as_str() {
            Some(t) => Some(t.clone()),
            None => None,
        },
        None => None,
    }
}

fn u64_field_exec(doc: &Json, key: &str) -> (r: Option<u64>)
    ensures
        r == u64_field(*doc, key@),
{
    match doc.get(key) {
        Some(Json::Number(n)) => n.uint,
        _ => None,
    }
}

fn nested_str_exec(doc: &Json, outer: &str, key: &str) -> (r: Option<String>)
    ensures
        opt_view(r) == nested_str(*doc, outer@, key@),
{
    match doc.get(outer) {
        Some(o) => str_field_exec(o, key),
        None => None,
    }
}

fn nested_u64_exec(doc: &Json, outer: &str, key: &str) -> (r: Option<u64>)
    ensures
        r == nested_u64(*doc, outer@, key@),
{
    match doc.get(outer) {
        Some(o) => u64_field_exec(o, key),
        None => None,
    }
}

fn or_else_string(a: Option<String>, b: Option<String>) -> (r: Option<String>)
    ensures
        opt_view(r) == or_else(opt_view(a), opt_view(b)),
{
    if a.is_some() {
        a
    } else {
        b
    }
}

/// Reads the remote settings of a parsed JSON object.
pub fn remote_config_of(doc: &Json) -> (r: Option<RemoteConfig>)
    ensures
        match r {
            Some(c) => spec_remote_config(*doc) == Some(c@),
            None => spec_remote_config(*doc) is None,
        },
{
    match doc {
        Json::Object(_) => {
            let host = or_else_string(nested_str_exec(doc, "settings", "host"), str_field_exec(doc, "hostName"));
            let host_path = str_field_exec(doc, "hostPath");
            let scheme = str_field_exec(doc, "scheme");
            let user = or_else_string(nested_str_exec(doc, "settings", "user"), str_field_exec(doc, "user"));
            let p1 = nested_u64_exec(doc, "settings", "port");
            let p = if p1.is_some() { p1 } else { u64_field_exec(doc, "port") };
            let port = match p {
                Some(v) => if v <= 65535 { Some(v as u16) } else { None },
                None => None,
            };
            Some(RemoteConfig { host, host_path, scheme, user, port })
        },
        _ => None,
    }
}

/// Parses the JSON text of an authority into remote settings; `None` where
/// the text is not a JSON object.
pub fn parse_json_remote_config(json_config: &str) -> (r: Option<RemoteConfig>)
    ensures
        match r {
            Some(c) => spec_json_config(json_config@) == Some(c@),
            None => spec_json_config(json_config@) is None,
        },
{
    match parse_json(json_config) {
        Some(doc) => remote_config_of(&doc),
        None => None,
    }
}


/// `info` updated from JSON remote settings: host as resolved by the caller
/// (`None` leaves it), user and port as the settings give them, the path
/// before any override kept as the container path, `hostPath` overriding the
/// path, and `scheme` appended as a tag.
pub open spec fn apply_config(info: PathInfoView, cfg: RemoteConfigView, host: Option<Seq<char>>) -> PathInfoView {
    PathInfoView {
        remote_host: if host is Some { host } else { info.remote_host },
        remote_user: cfg.user,
        remote_port: cfg.port,
        container_path: Some(info.path),
        path: match cfg.host_path {
            Some(p) => p,
            None => info.path,
        },
        tags: match cfg.scheme {
            Some(t) => info.tags.push(t),
            None => info.tags,
        },
        ..info
    }
}

/// `info` updated from the part of an `ssh-remote+` authority after the
/// prefix: hex-decoded where that applies; a JSON object there gives the
/// remote settings (host falling back to the decoded text itself), anything
/// else is read as a plain descriptor.
pub open spec fn spec_ssh_authority(info: PathInfoView, r: Seq<char>) -> PathInfoView {
    match spec_decode_hex(r) {
        Ok(d) => if starts_brace(d) {
            match spec_json_config(d) {
                Some(cfg) => apply_config(info, cfg, Some(or_else(cfg.host, Some(d))->0)),
                None => spec_apply_ssh(info, d),
            }
        } else {
            spec_apply_ssh(info, d)
        },
        Err(_) => spec_apply_ssh(info, r),
    }
}

/// `info` with the host after the last `@` of a container authority, read
/// as a descriptor where it holds an `@` itself.
pub open spec fn apply_container_host(info: PathInfoView, host: Option<Seq<char>>) -> PathInfoView {
    match host {
        Some(h) => {
            let with_host = PathInfoView { remote_host: Some(h), ..info };
            if h.contains('@') {
                spec_apply_ssh(with_host, h)
            } else {
                with_host
            }
        },
        None => info,
    }
}

/// The host of a container whose JSON settings were read: the settings'
/// host, else the text after the last `@`; an empty one sets nothing.
pub open spec fn container_host(cfg: RemoteConfigView, host: Option<Seq<char>>) -> Option<Seq<char>> {
    let h = match cfg.host {
        Some(x) => x,
        None => match host {
            Some(x) => x,
            None => Seq::empty(),
        },
    };
    if h.len() > 0 { Some(h) } else { None }
}

/// `info` updated from the part of a `dev-container+` authority after the
/// prefix: split at the last `@` into configuration and host; a
/// configuration that hex-decodes to a JSON object gives the remote
/// settings, otherwise the host alone is used.
pub open spec fn spec_container_authority(info: PathInfoView, c: Seq<char>) -> PathInfoView {
    let config = match last_index_of(c, '@') {
        Some(a) => c.take(a),
        None => c,
    };
    let host = match last_index_of(c, '@') {
        Some(a) => Some(c.skip(a + 1)),
        None => None,
    };
    match spec_decode_hex(config) {
        Ok(d) => if starts_brace(d) {
            match spec_json_config(d) {
                Some(cfg) => apply_config(info, cfg, container_host(cfg, host)),
                None => apply_container_host(info, host),
            }
        } else {
            apply_container_host(info, host)
        },
        Err(_) => apply_container_host(info, host),
    }
}

/// A local path: a file where the file-existence check says so, a folder
/// otherwise, with the path as given.
pub open spec fn local_info(raw: Seq<char>, is_file: bool) -> PathInfoView {
    PathInfoView {
        original_path: raw,
        workspace_type: if is_file { WorkspaceType::File } else { WorkspaceType::Folder },
        remote_authority: None,
        remote_host: None,
        remote_user: None,
        remote_port: None,
        path: raw,
        container_path: None,
        label: None,
        tags: Seq::empty(),
    }
}

/// The parsed view of `raw`. A path without the `vscode-remote://` scheme is
/// local (`local_info`). A remote URI needs a `/` after its authority, else
/// it is malformed; its authority is percent-decoded (or kept raw), the rest
/// becomes the path with a leading `/`, it is tagged `remote`, and an
/// `ssh-remote+` or `dev-container+` authority is taken apart further.
/// `is_file` is what the file-existence check reports for `raw`.
#[verifier::opaque]
pub open spec fn spec_parse(raw: Seq<char>, is_file: bool) -> Result<PathInfoView, ()> {
    if !has_prefix(raw, "vscode-remote://"@) {
        Ok(local_info(raw, is_file))
    } else {
        let rest = raw.skip("vscode-remote://"@.len() as int);
        match first_index_of(rest, '/') {
            None => Err(()),
            Some(sl) => {
                let auth = decoded_or_raw(rest.take(sl));
                let seg = rest.skip(sl + 1);
                let base = PathInfoView {
                    original_path: raw,
                    workspace_type: WorkspaceType::Workspace,
                    remote_authority: Some(auth),
                    remote_host: None,
                    remote_user: None,
                    remote_port: None,
                    path: if seg.len() > 0 && seg[0] == '/' { seg } else { seq!['/'] + seg },
                    container_path: None,
                    label: None,
                    tags: seq!["remote"@],
                };
                if has_prefix(auth, "ssh-remote+"@) {
                    Ok(spec_ssh_authority(
                        PathInfoView { tags: base.tags.push("ssh"@), ..base },
                        auth.skip("ssh-remote+"@.len() as int),
                    ))
                } else if has_prefix(auth, "dev-container+"@) {
                    Ok(spec_container_authority(
                        PathInfoView { tags: base.tags.push("devcontainer"@), ..base },
                        auth.skip("dev-container+"@.len() as int),
                    ))
                } else {
                    Ok(base)
                }
            },
        }
    }
}

fn apply_config_exec(info: &mut WorkspacePathInfo, cfg: RemoteConfig, host: Option<String>)
    ensures
        final(info)@ == apply_config(old(info)@, cfg@, opt_view(host)),
{
    if host.is_some() {
        info.remote_host = host;
    }
    info.remote_user = cfg.user;
    info.remote_port = cfg.port;
    info.container_path = Some(info.path.clone());
    if let Some(p) = cfg.host_path {
        info.path = p;
    }
    if let Some(t) = cfg.scheme {
        let ghost before = info.tags@;
        info.tags.push(t);
        assert(crate::paths::views(info.tags@) =~= crate::paths::views(before).push(t@));
    }
}

fn apply_ssh_authority(info: &mut WorkspacePathInfo, r: &str)
    ensures
        final(info)@ == spec_ssh_authority(old(info)@, r@),
{
    match decode_hex_if_needed(r) {
        Ok(d) => {
            let dc = chars_of(d.as_str());
            if dc.len() > 0 && dc[0] == '{' {
                match parse_json_remote_config(d.as_str()) {
                    Some(cfg) => {
                        let host = match &cfg.host {
                            Some(h) => h.clone(),
                            None => d.clone(),
                        };
                        apply_config_exec(info, cfg, Some(host));
                    },
                    None => parse_ssh_remote_string(d.as_str(), info),
                }
            } else {
                parse_ssh_remote_string(d.as_str(), info);
            }
        },
        Err(_) => parse_ssh_remote_string(r, info),
    }
}

fn apply_container_host_exec(info: &mut WorkspacePathInfo, host: &Option<String>)
    ensures
        final(info)@ == apply_container_host(old(info)@, opt_view(*host)),
{
    if let Some(h) = host {
        info.remote_host = Some(h.clone());
        let hc = chars_of(h.as_str());
        let at = crate::text::find_char(&hc, '@');
        if at.is_some() {
            assert(h@.contains('@'));
            parse_ssh_remote_string(h.as_str(), info);
        } else {
            assert(!h@.contains('@'));
        }
    }
}

fn apply_container_authority(info: &mut WorkspacePathInfo, c: &str)
    ensures
        final(info)@ == spec_container_authority(old(info)@, c@),
{
    let cc = chars_of(c);
    let (config, host) = match find_last(&cc, '@') {
        Some(a) => {
            assert(a < cc.len());
            let cf = slice_vec_of(&cc, 0, a);
            let h = slice_vec_of(&cc, a + 1, cc.len());
            (string_of(&cf), Some(string_of(&h)))
        },
        None => (c.to_string(), None),
    };
    match decode_hex_if_needed(config.as_str()) {
        Ok(d) => {
            let dc = chars_of(d.as_str());
            if dc.len() > 0 && dc[0] == '{' {
                match parse_json_remote_config(d.as_str()) {
                    Some(cfg) => {
                        let h = match &cfg.host {
                            Some(x) => x.clone(),
                            None => match &host {
                                Some(x) => x.clone(),
                                None => String::new(),
                            },
                        };
                        let hc = chars_of(h.as_str());
                        let resolved = if hc.len() > 0 { Some(h) } else { None };
                        apply_config_exec(info, cfg, resolved);
                    },
                    None => apply_container_host_exec(info, &host),
                }
            } else {
                apply_container_host_exec(info, &host);
            }
        },
        Err(_) => apply_container_host_exec(info, &host),
    }
}

/// Parses a recorded path or URI; see `spec_parse` for the grammar.
/// `is_file` is what the file-existence check reports for `path`; it
/// decides between file and folder for a local path and is not consulted
/// otherwise.
#[verifier::rlimit(90)]
pub fn parse_workspace_path(path: &str, is_file: bool) -> (r: Result<WorkspacePathInfo, WorkspaceError>)
    ensures
        match spec_parse(path@, is_file) {
            Ok(v) => r is Ok && r->Ok_0@ == v,
            Err(_) => r is Err && r->Err_0 is Parse,
        },
{
    reveal(spec_parse);
    let mut info = WorkspacePathInfo {
        original_path: path.to_string(),
        workspace_type: if is_file { WorkspaceType::File } else { WorkspaceType::Folder },
        remote_authority: None,
        remote_host: None,
        remote_user: None,
        remote_port: None,
        path: path.to_string(),
        container_path: None,
        label: None,
        tags: Vec::new(),
    };
    let p = chars_of(path);
    let scheme = chars_of("vscode-remote://");
    if !crate::text::starts_with(&p, &scheme) {
        assert(crate::paths::views(info.tags@) =~= Seq::<Seq<char>>::empty());
        return Ok(info);
    }
    let rest = slice_vec_of(&p, scheme.len(), p.len());
    let sl = match find_first(&rest, '/') {
        Some(i) => i,
        None => {
            return Err(WorkspaceError::Parse("remote URI without a path".to_string()));
        },
    };
    let raw_auth = slice_vec_of(&rest, 0, sl);
    let seg = slice_vec_of(&rest, sl + 1, rest.len());
    let auth = crate::paths::decode_or_raw(string_of(&raw_auth).as_str());
    info.remote_authority = Some(auth.clone());
    info.workspace_type = WorkspaceType::Workspace;
    if seg.len() > 0 && seg[0] == '/' {
        info.path = string_of(&seg);
    } else {
        let mut padded: Vec<char> = vec!['/'];
        crate::text::push_all(&mut padded, &seg);
        assert(padded@ =~= seq!['/'] + seg@);
        info.path = string_of(&padded);
    }
    info.tags.push("remote".to_string());
    assert(crate::paths::views(info.tags@) =~= seq!["remote"@]);
    let a = chars_of(auth.as_str());
    let ssh = chars_of("ssh-remote+");
    let dev = chars_of("dev-container+");
    if crate::text::starts_with(&a, &ssh) {
        let ghost before = info.tags@;
        info.tags.push("ssh".to_string());
        assert(crate::paths::views(info.tags@) =~= crate::paths::views(before).push("ssh"@));
        let remainder = string_of(&slice_vec_of(&a, ssh.len(), a.len()));
        apply_ssh_authority(&mut info, remainder.as_str());
    } else if crate::text::starts_with(&a, &dev) {
        let ghost before = info.tags@;
        info.tags.push("devcontainer".to_string());
        assert(crate::paths::views(info.tags@) =~= crate::paths::views(before).push("devcontainer"@));
        let remainder = string_of(&slice_vec_of(&a, dev.len(), a.len()));
        apply_container_authority(&mut info, remainder.as_str());
    }
    Ok(info)
}

/// Decoding is idempotent on text that already starts with `{`: such text
/// comes back unchanged, and so does decoding it again.
pub proof fn decode_hex_idempotent_on_json(s: Seq<char>)
    requires
        starts_brace(s),
    ensures
        spec_decode_hex(s) == Ok::<Seq<char>, ()>(s),
        spec_decode_hex(spec_decode_hex(s)->Ok_0) == spec_decode_hex(s),
{
}

/// A local path parses as a file exactly where the file-existence check
/// reports one, as a folder otherwise, and keeps its path as given.
pub proof fn local_path_kind_follows_file_check(p: Seq<char>, is_file: bool)
    requires
        !has_prefix(p, "vscode-remote://"@),
    ensures
        spec_parse(p, is_file) is Ok,
        (spec_parse(p, is_file)->Ok_0.workspace_type == WorkspaceType::File) == is_file,
        !is_file ==> spec_parse(p, is_file)->Ok_0.workspace_type == WorkspaceType::Folder,
        spec_parse(p, is_file)->Ok_0.path == p,
        spec_parse(p, is_file)->Ok_0.remote_authority is None,
{
    reveal(spec_parse);
}

} // verus!
