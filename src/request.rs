//! Reading the path out of a request line and resolving it under the root.
use vstd::prelude::*;
use crate::percent::{decode, percent_decode};

verus! {

/// ASCII whitespace: space, tab, line feed, vertical tab, form feed, return.
pub open spec fn is_space(b: u8) -> bool {
    b == 0x20 || (0x09 <= b && b <= 0x0D)
}

/// The first index at or after `i` that holds no whitespace (or the length).
pub open spec fn skip_spaces(s: Seq<u8>, i: int) -> int
    decreases s.len() - i,
{
    if i < 0 || i >= s.len() || !is_space(s[i]) {
        i
    } else {
        skip_spaces(s, i + 1)
    }
}

/// The first index at or after `i` that holds whitespace (or the length).
pub open spec fn token_end(s: Seq<u8>, i: int) -> int
    decreases s.len() - i,
{
    if i < 0 || i >= s.len() || is_space(s[i]) {
        i
    } else {
        token_end(s, i + 1)
    }
}

/// The second whitespace-separated token of a request line, or `/` when the
/// line has fewer than two tokens.
pub open spec fn request_path(line: Seq<u8>) -> Seq<u8> {
    let method_start = skip_spaces(line, 0);
    let method_end = token_end(line, method_start);
    let path_start = skip_spaces(line, method_end);
    if path_start < line.len() {
        line.subrange(path_start, token_end(line, path_start))
    } else {
        seq![0x2Fu8]
    }
}

/// The filesystem path that a decoded request path names under `root`: one
/// leading `/` is taken off, and what is left, if anything, is joined to the
/// root with a `/`. Nothing else is normalised, `..` included.
pub open spec fn resolve(root: Seq<u8>, decoded: Seq<u8>) -> Seq<u8> {
    let rest = if decoded.len() > 0 && decoded[0] == 0x2F {
        decoded.drop_first()
    } else {
        decoded
    };
    if rest.len() == 0 {
        root
    } else if root.len() > 0 && root.last() == 0x2F {
        root + rest
    } else {
        root + seq![0x2Fu8] + rest
    }
}

/// The index of the last occurrence of `b` in `s`, or -1.
pub open spec fn last_index_of(s: Seq<u8>, b: u8) -> int
    decreases s.len(),
{
    if s.len() == 0 {
        -1
    } else if s.last() == b {
        s.len() - 1
    } else {
        last_index_of(s.drop_last(), b)
    }
}

/// The last component of a path: what follows its last `/`.
pub open spec fn file_name(path: Seq<u8>) -> Seq<u8> {
    path.subrange(last_index_of(path, 0x2F) + 1, path.len() as int)
}

/// The extension of a path: what follows the last `.` of its file name, when
/// that `.` is not the name's first byte; otherwise nothing.
pub open spec fn extension(path: Seq<u8>) -> Seq<u8> {
    let name = file_name(path);
    let dot = last_index_of(name, 0x2E);
    if dot > 0 {
        name.subrange(dot + 1, name.len() as int)
    } else {
        Seq::empty()
    }
}

/// One request, as far as the server reads it.
pub struct Request {
    /// The path token exactly as the client sent it, still percent-encoded.
    pub raw_path: Vec<u8>,
    /// The filesystem path that the decoded token resolves to.
    pub target: Vec<u8>,
}

fn is_space_byte(b: u8) -> (r: bool)
    ensures
        r == is_space(b),
{
    b == 0x20 || (0x09 <= b && b <= 0x0D)
}

fn skip_spaces_from(s: &[u8], i: usize) -> (r: usize)
    requires
        i <= s@.len(),
    ensures
        r as int == skip_spaces(s@, i as int),
        i <= r <= s@.len(),
{
    let mut j = i;
    while j < s.len() && is_space_byte(s[j])
        invariant
            i <= j <= s@.len(),
            skip_spaces(s@, i as int) == skip_spaces(s@, j as int),
        decreases s@.len() - j,
    {
        j += 1;
    }
    j
}

fn token_end_from(s: &[u8], i: usize) -> (r: usize)
    requires
        i <= s@.len(),
    ensures
        r as int == token_end(s@, i as int),
        i <= r <= s@.len(),
{
    let mut j = i;
    while j < s.len() && !is_space_byte(s[j])
        invariant
            i <= j <= s@.len(),
            token_end(s@, i as int) == token_end(s@, j as int),
        decreases s@.len() - j,
    {
        j += 1;
    }
    j
}

fn copy_range(s: &[u8], from: usize, to: usize) -> (r: Vec<u8>)
    requires
        from <= to <= s@.len(),
    ensures
        r@ == s@.subrange(from as int, to as int),
{
    let mut out: Vec<u8> = Vec::new();
    let mut k = from;
    while k < to
        invariant
            from <= k <= to <= s@.len(),
            out@ == s@.subrange(from as int, k as int),
        decreases to - k,
    {
        out.push(s[k]);
        k += 1;
        assert(out@ =~= s@.subrange(from as int, k as int));
    }
    out
}

/// Takes the path token out of a request line.
pub fn parse_request_path(line: &[u8]) -> (r: Vec<u8>)
    ensures
        r@ == request_path(line@),
{
    let method_start = skip_spaces_from(line, 0);
    let method_end = token_end_from(line, method_start);
    let path_start = skip_spaces_from(line, method_end);
    if path_start < line.len() {
        let path_end = token_end_from(line, path_start);
        copy_range(line, path_start, path_end)
    } else {
        let mut r: Vec<u8> = Vec::new();
        r.push(0x2F);
        assert(r@ =~= seq![0x2Fu8]);
        r
    }
}

/// Joins a decoded request path onto the root, as `resolve` describes.
pub fn resolve_path(root: &[u8], decoded: &[u8]) -> (r: Vec<u8>)
    ensures
        r@ == resolve(root@, decoded@),
{
    let start: usize = if decoded.len() > 0 && decoded[0] == 0x2F { 1 } else { 0 };
    let rest = copy_range(decoded, start, decoded.len());
    assert(start == 1 ==> rest@ =~= decoded@.drop_first());
    assert(start == 0 ==> rest@ =~= decoded@);
    let mut out = copy_range(root, 0, root.len());
    assert(out@ =~= root@);
    if rest.len() == 0 {
        return out;
    }
    if !(root.len() > 0 && root[root.len() - 1] == 0x2F) {
        out.push(0x2F);
    }
    crate::bytes::push_slice(&mut out, rest.as_slice());
    out
}

/// Reads the request line and works out which filesystem path it asks for.
pub fn parse_request(root: &[u8], line: &[u8]) -> (r: Request)
    ensures
        r.raw_path@ == request_path(line@),
        r.target@ == resolve(root@, decode(request_path(line@))),
{
    let raw_path = parse_request_path(line);
    let decoded = percent_decode(raw_path.as_slice());
    let target = resolve_path(root, decoded.as_slice());
    Request { raw_path, target }
}

fn last_index(s: &[u8], b: u8) -> (r: Option<usize>)
    ensures
        match r {
            Some(k) => k as int == last_index_of(s@, b) && k < s@.len(),
            None => last_index_of(s@, b) == -1,
        },
{
    let mut i = s.len();
    assert(s@.subrange(0, i as int) =~= s@);
    while i > 0
        invariant
            i <= s@.len(),
            last_index_of(s@, b) == last_index_of(s@.subrange(0, i as int), b),
        decreases i,
    {
        let ghost pre = s@.subrange(0, i as int);
        if s[i - 1] == b {
            assert(pre.last() == b);
            return Some(i - 1);
        }
        assert(pre.drop_last() =~= s@.subrange(0, i - 1));
        i -= 1;
    }
    assert(s@.subrange(0, 0) =~= Seq::<u8>::empty());
    None
}

/// The extension of a path, as `extension` describes.
pub fn path_extension(path: &[u8]) -> (r: Vec<u8>)
    ensures
        r@ == extension(path@),
{
    assert(path@.subrange(0, path@.len() as int) =~= path@);
    let name_start: usize = match last_index(path, 0x2F) {
        Some(k) => {
            assert(k < path.len());
            k + 1
        },
        None => 0,
    };
    let name = copy_range(path, name_start, path.len());
    match last_index(name.as_slice(), 0x2E) {
        Some(dot) => {
            if dot > 0 {
                copy_range(name.as_slice(), dot + 1, name.len())
            } else {
                Vec::new()
            }
        },
        None => Vec::new(),
    }
}

} // verus!
