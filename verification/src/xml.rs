use vstd::prelude::*;
use crate::error::ExecutionError;

verus! {

/// One piece of a markup document: an opening tag, a closing tag, a
/// self-closing tag, or any other run of bytes (text, comments,
/// declarations). Every chunk carries the exact bytes it was read from, so
/// that unrecognised content can be passed through unchanged.
#[derive(Debug, Clone)]
pub enum XmlChunk {
    Open { name: Vec<u8>, attributes: Vec<(Vec<u8>, Vec<u8>)>, raw: Vec<u8> },
    Close { name: Vec<u8>, raw: Vec<u8> },
    SelfClose { name: Vec<u8>, attributes: Vec<(Vec<u8>, Vec<u8>)>, raw: Vec<u8> },
    Other { raw: Vec<u8> },
}

/// The bytes a chunk was read from.
pub open spec fn chunk_raw(c: XmlChunk) -> Seq<u8> {
    match c {
        XmlChunk::Open { raw, .. } => raw@,
        XmlChunk::Close { raw, .. } => raw@,
        XmlChunk::SelfClose { raw, .. } => raw@,
        XmlChunk::Other { raw } => raw@,
    }
}

/// A tag chunk's name is the run of name bytes its raw text opens with:
/// after `<` for an opening or self-closing tag, after `</` for a closing
/// tag.
pub open spec fn chunk_name_in_raw(c: XmlChunk) -> bool {
    match c {
        XmlChunk::Open { name, raw, .. } => 1 + name@.len() <= raw@.len() && raw@[0] == 60
            && name@ == raw@.subrange(1, 1 + name@.len() as int),
        XmlChunk::SelfClose { name, raw, .. } => 1 + name@.len() <= raw@.len() && raw@[0] == 60
            && name@ == raw@.subrange(1, 1 + name@.len() as int),
        XmlChunk::Close { name, raw } => 2 + name@.len() <= raw@.len() && raw@[0] == 60
            && raw@[1] == 47 && name@ == raw@.subrange(2, 2 + name@.len() as int),
        XmlChunk::Other { .. } => true,
    }
}

/// The bytes of a whole chunk sequence, in order.
pub open spec fn concat_raws(chunks: Seq<XmlChunk>) -> Seq<u8>
    decreases chunks.len(),
{
    if chunks.len() == 0 {
        Seq::empty()
    } else {
        concat_raws(chunks.drop_last()) + chunk_raw(chunks.last())
    }
}

// ------------------------------------------------------------------
// The mathematical chunk and the scanner's meaning
// ------------------------------------------------------------------
/// The mathematical value of a chunk: views in place of byte vectors.
pub enum ChunkM {
    MOpen { name: Seq<u8>, attrs: Seq<(Seq<u8>, Seq<u8>)>, raw: Seq<u8> },
    MClose { name: Seq<u8>, raw: Seq<u8> },
    MSelfClose { name: Seq<u8>, attrs: Seq<(Seq<u8>, Seq<u8>)>, raw: Seq<u8> },
    MOther { raw: Seq<u8> },
}

/// The views of an attribute list.
pub open spec fn attrs_view(attrs: Seq<(Vec<u8>, Vec<u8>)>) -> Seq<(Seq<u8>, Seq<u8>)> {
    attrs.map_values(|p: (Vec<u8>, Vec<u8>)| (p.0@, p.1@))
}

/// The model of a chunk.
pub open spec fn chunk_view(c: XmlChunk) -> ChunkM {
    match c {
        XmlChunk::Open { name, attributes, raw } => ChunkM::MOpen {
            name: name@,
            attrs: attrs_view(attributes@),
            raw: raw@,
        },
        XmlChunk::Close { name, raw } => ChunkM::MClose { name: name@, raw: raw@ },
        XmlChunk::SelfClose { name, attributes, raw } => ChunkM::MSelfClose {
            name: name@,
            attrs: attrs_view(attributes@),
            raw: raw@,
        },
        XmlChunk::Other { raw } => ChunkM::MOther { raw: raw@ },
    }
}

/// The models of a chunk sequence.
pub open spec fn chunks_mview(chunks: Seq<XmlChunk>) -> Seq<ChunkM> {
    chunks.map_values(|c: XmlChunk| chunk_view(c))
}

/// The bytes a chunk model was read from.
pub open spec fn chunk_raw_m(c: ChunkM) -> Seq<u8> {
    match c {
        ChunkM::MOpen { raw, .. } => raw,
        ChunkM::MClose { raw, .. } => raw,
        ChunkM::MSelfClose { raw, .. } => raw,
        ChunkM::MOther { raw } => raw,
    }
}

/// The first position at or after `from` holding byte `b`, or the length.
pub open spec fn find_pos(s: Seq<u8>, from: int, b: u8) -> int
    decreases s.len() - from,
{
    if from < 0 || from >= s.len() {
        s.len() as int
    } else if s[from] == b {
        from
    } else {
        find_pos(s, from + 1, b)
    }
}

/// The end of the whitespace run starting at `from`.
pub open spec fn ws_end(s: Seq<u8>, from: int) -> int
    decreases s.len() - from,
{
    if from < 0 || from >= s.len() {
        s.len() as int
    } else if is_ws(s[from]) {
        ws_end(s, from + 1)
    } else {
        from
    }
}

/// Whether `b` ends a tag or attribute name: whitespace, `>`, `/` or `=`.
pub open spec fn spec_name_end(b: u8) -> bool {
    is_ws(b) || b == 62 || b == 47 || b == 61
}

/// The first position at or after `from` holding whitespace or `>`.
pub open spec fn plain_end(s: Seq<u8>, from: int) -> int
    decreases s.len() - from,
{
    if from < 0 || from >= s.len() {
        s.len() as int
    } else if is_ws(s[from]) || s[from] == 62 {
        from
    } else {
        plain_end(s, from + 1)
    }
}

/// The first position at or after `from` that ends an attribute name.
pub open spec fn name_end(s: Seq<u8>, from: int) -> int
    decreases s.len() - from,
{
    if from < 0 || from >= s.len() {
        s.len() as int
    } else if spec_name_end(s[from]) {
        from
    } else {
        name_end(s, from + 1)
    }
}

/// The first position at or after `from` that ends a tag name: a name end
/// or another `<`.
pub open spec fn tag_name_end(s: Seq<u8>, from: int) -> int
    decreases s.len() - from,
{
    if from < 0 || from >= s.len() {
        s.len() as int
    } else if spec_name_end(s[from]) || s[from] == 60 {
        from
    } else {
        tag_name_end(s, from + 1)
    }
}

/// The position just after the first `-->` at or after `from`, if any.
pub open spec fn comment_end_pos(s: Seq<u8>, from: int) -> Option<int>
    decreases s.len() - from,
{
    if from < 0 || from + 2 >= s.len() {
        None
    } else if s[from] == 45 && s[from + 1] == 45 && s[from + 2] == 62 {
        Some(from + 3)
    } else {
        comment_end_pos(s, from + 1)
    }
}

/// What reading the attributes from position `i` yields, `acc` already
/// read: the attributes in order, whether the tag was self-closing, and
/// the position just past the closing `>`; an error when the tag or a
/// quoted value never closes. Mirrors the scanner step for step; the
/// position guards before each recursion always hold of the scanner's
/// positions and only serve termination.
pub open spec fn spec_scan_attrs(s: Seq<u8>, i: int, acc: Seq<(Seq<u8>, Seq<u8>)>) -> Result<
    (Seq<(Seq<u8>, Seq<u8>)>, bool, int),
    (),
>
    decreases s.len() - i,
{
    let sw = ws_end(s, i);
    if !(i <= sw <= s.len()) {
        Err(())
    } else if sw >= s.len() {
        Err(())
    } else if s[sw] == 62 {
        Ok((acc, false, sw + 1))
    } else if s[sw] == 47 {
        if sw + 1 < s.len() && s[sw + 1] == 62 {
            Ok((acc, true, sw + 2))
        } else {
            spec_scan_attrs(s, sw + 1, acc)
        }
    } else {
        let j = name_end(s, sw);
        if !(sw <= j <= s.len()) {
            Err(())
        } else if j == sw {
            spec_scan_attrs(s, sw + 1, acc)
        } else {
            let name = s.subrange(sw, j);
            let k = ws_end(s, j);
            if k < s.len() && s[k] == 61 {
                let v = ws_end(s, k + 1);
                if v < s.len() && (s[v] == 34 || s[v] == 39) {
                    let q = find_pos(s, v + 1, s[v]);
                    if q >= s.len() {
                        Err(())
                    } else if i < q + 1 && q + 1 <= s.len() {
                        spec_scan_attrs(s, q + 1, acc.push((name, s.subrange(v + 1, q))))
                    } else {
                        Err(())
                    }
                } else {
                    let e = plain_end(s, v);
                    if e == sw {
                        spec_scan_attrs(s, sw + 1, acc.push((name, s.subrange(v, e))))
                    } else if sw < e && e <= s.len() {
                        spec_scan_attrs(s, e, acc.push((name, s.subrange(v, e))))
                    } else {
                        Err(())
                    }
                }
            } else {
                if i < j {
                    spec_scan_attrs(s, j, acc.push((name, Seq::empty())))
                } else {
                    Err(())
                }
            }
        }
    }
}

/// What reading one chunk at `pos` yields: the chunk model and the
/// position just past it, or an error when the markup never closes.
pub open spec fn spec_next_chunk(s: Seq<u8>, pos: int) -> Result<(ChunkM, int), ()> {
    if !(0 <= pos < s.len()) {
        Err(())
    } else if s[pos] != 60 {
        let end = find_pos(s, pos + 1, 60);
        Ok((ChunkM::MOther { raw: s.subrange(pos, end) }, end))
    } else if pos + 1 >= s.len() {
        Err(())
    } else if s[pos + 1] == 33 {
        if s.len() - pos > 3 && s[pos + 2] == 45 && s[pos + 3] == 45 {
            match comment_end_pos(s, pos + 4) {
                Some(end) => Ok((ChunkM::MOther { raw: s.subrange(pos, end) }, end)),
                None => Err(()),
            }
        } else {
            let gt = find_pos(s, pos + 2, 62);
            if gt >= s.len() {
                Err(())
            } else {
                Ok((ChunkM::MOther { raw: s.subrange(pos, gt + 1) }, gt + 1))
            }
        }
    } else if s[pos + 1] == 63 {
        let gt = find_pos(s, pos + 2, 62);
        if gt >= s.len() {
            Err(())
        } else {
            Ok((ChunkM::MOther { raw: s.subrange(pos, gt + 1) }, gt + 1))
        }
    } else if s[pos + 1] == 47 {
        let j = plain_end(s, pos + 2);
        let gt = find_pos(s, j, 62);
        if gt >= s.len() {
            Err(())
        } else {
            Ok(
                (
                    ChunkM::MClose { name: s.subrange(pos + 2, j), raw: s.subrange(pos, gt + 1) },
                    gt + 1,
                ),
            )
        }
    } else {
        let j = tag_name_end(s, pos + 1);
        match spec_scan_attrs(s, j, Seq::empty()) {
            Err(_) => Err(()),
            Ok((attrs, self_closing, end)) => if self_closing {
                Ok(
                    (
                        ChunkM::MSelfClose {
                            name: s.subrange(pos + 1, j),
                            attrs,
                            raw: s.subrange(pos, end),
                        },
                        end,
                    ),
                )
            } else {
                Ok(
                    (
                        ChunkM::MOpen {
                            name: s.subrange(pos + 1, j),
                            attrs,
                            raw: s.subrange(pos, end),
                        },
                        end,
                    ),
                )
            },
        }
    }
}

/// What scanning a whole document from `pos` yields, `acc` already read:
/// the chunk models in order, or an error where some chunk never closes.
/// The position guard before the recursion always holds of the scanner's
/// positions and only serves termination.
pub open spec fn spec_scan_doc(s: Seq<u8>, pos: int, acc: Seq<ChunkM>) -> Result<Seq<ChunkM>, ()>
    decreases s.len() - pos,
{
    if pos >= s.len() {
        Ok(acc)
    } else {
        match spec_next_chunk(s, pos) {
            Err(_) => Err(()),
            Ok((c, p)) => if pos < p && p <= s.len() {
                spec_scan_doc(s, p, acc.push(c))
            } else {
                Err(())
            },
        }
    }
}

/// Whether `b` is ASCII whitespace.
pub open spec fn is_ws(b: u8) -> bool {
    b == 32 || b == 9 || b == 13 || b == 10
}

/// Whether `b` is ASCII whitespace.
fn is_ws_exec(b: u8) -> (r: bool)
    ensures
        r == is_ws(b),
{
    b == 32 || b == 9 || b == 13 || b == 10
}

/// The bytes of `s` from `from` (inclusive) to `to` (exclusive).
pub fn subvec_bytes(s: &Vec<u8>, from: usize, to: usize) -> (r: Vec<u8>)
    requires
        from <= to <= s@.len(),
    ensures
        r@ == s@.subrange(from as int, to as int),
{
    let mut r: Vec<u8> = Vec::new();
    let mut i: usize = from;
    while i < to
        invariant
            from <= i <= to <= s@.len(),
            r@ =~= s@.subrange(from as int, i as int),
        decreases to - i,
    {
        r.push(s[i]);
        i = i + 1;
    }
    proof {
        assert(r@ =~= s@.subrange(from as int, to as int));
    }
    r
}

/// Whether two byte vectors hold the same bytes.
pub fn bytes_eq(a: &Vec<u8>, b: &Vec<u8>) -> (r: bool)
    ensures
        r == (a@ == b@),
{
    let n = a.len();
    if n != b.len() {
        return false;
    }
    let mut i: usize = 0;
    while i < n
        invariant
            n == a@.len(),
            n == b@.len(),
            0 <= i <= n,
            forall|t: int| 0 <= t < i ==> a@[t] == b@[t],
        decreases n - i,
    {
        if a[i] != b[i] {
            return false;
        }
        i = i + 1;
    }
    proof {
        assert(a@ =~= b@);
    }
    true
}

/// The first position at or after `from` holding byte `b`, or the length.
fn find_byte(s: &Vec<u8>, from: usize, b: u8) -> (r: usize)
    requires
        from <= s@.len(),
    ensures
        from <= r <= s@.len(),
        r < s@.len() ==> s@[r as int] == b,
        forall|t: int| from <= t < r ==> s@[t] != b,
        r == find_pos(s@, from as int, b),
{
    let n = s.len();
    let mut i: usize = from;
    while i < n && s[i] != b
        invariant
            n == s@.len(),
            from <= i <= n,
            forall|t: int| from <= t < i ==> s@[t] != b,
            find_pos(s@, from as int, b) == find_pos(s@, i as int, b),
        decreases n - i,
    {
        i = i + 1;
    }
    i
}

/// The end of the whitespace run starting at `from`.
fn skip_ws(s: &Vec<u8>, from: usize) -> (r: usize)
    requires
        from <= s@.len(),
    ensures
        from <= r <= s@.len(),
        r == ws_end(s@, from as int),
{
    let n = s.len();
    let mut i: usize = from;
    while i < n && is_ws_exec(s[i])
        invariant
            n == s@.len(),
            from <= i <= n,
            ws_end(s@, from as int) == ws_end(s@, i as int),
        decreases n - i,
    {
        i = i + 1;
    }
    i
}

/// Whether `b` ends a tag or attribute name.
fn is_name_end(b: u8) -> (r: bool)
    ensures
        r == spec_name_end(b),
{
    is_ws_exec(b) || b == 62 || b == 47 || b == 61  // '>' '/' '='
}

/// The position just after the first `-->` at or after `from`, when there
/// is one.
fn find_comment_end(s: &Vec<u8>, from: usize) -> (r: Option<usize>)
    requires
        from <= s@.len(),
    ensures
        r matches Some(p) ==> from < p <= s@.len(),
        match r {
            Some(p) => comment_end_pos(s@, from as int) == Some(p as int),
            None => comment_end_pos(s@, from as int) is None,
        },
{
    let n = s.len();
    if n < 3 {
        return None;
    }
    let mut i: usize = from;
    while i < n - 2
        invariant
            n == s@.len(),
            3 <= n,
            from <= i,
            i <= n,
            comment_end_pos(s@, from as int) == comment_end_pos(s@, i as int),
        decreases n - i,
    {
        if s[i] == 45 && s[i + 1] == 45 && s[i + 2] == 62 {
            return Some(i + 3);
        }
        i = i + 1;
    }
    None
}

/// Reads the attributes of a tag, starting after the tag name, up to the
/// closing `>` (an `Open` ending) or `/>` (a `SelfClose` ending).
fn scan_attributes(s: &Vec<u8>, from: usize) -> (r: Result<
    (Vec<(Vec<u8>, Vec<u8>)>, bool, usize),
    ExecutionError,
>)
    requires
        from <= s@.len(),
    ensures
        r matches Ok((attrs, self_closing, p)) ==> from < p <= s@.len(),
        match r {
            Ok((attrs, self_closing, p)) => spec_scan_attrs(s@, from as int, Seq::empty()) == Ok::<
                (Seq<(Seq<u8>, Seq<u8>)>, bool, int),
                (),
            >((attrs_view(attrs@), self_closing, p as int)),
            Err(e) => spec_scan_attrs(s@, from as int, Seq::empty()) is Err && e is XmlParseError,
        },
{
    let n = s.len();
    let mut attrs: Vec<(Vec<u8>, Vec<u8>)> = Vec::new();
    let mut i: usize = from;
    proof {
        assert(attrs_view(attrs@) =~= Seq::<(Seq<u8>, Seq<u8>)>::empty());
    }
    loop
        invariant
            n == s@.len(),
            from <= i <= n,
            spec_scan_attrs(s@, from as int, Seq::empty()) == spec_scan_attrs(
                s@,
                i as int,
                attrs_view(attrs@),
            ),
        decreases n - i,
    {
        let ghost i0 = i as int;
        let ghost acc0 = attrs_view(attrs@);
        i = skip_ws(s, i);
        if i >= n {
            return Err(ExecutionError::XmlParseError("tag is not closed".to_owned()));
        }
        if s[i] == 62 {  // '>'
            return Ok((attrs, false, i + 1));
        }
        if s[i] == 47 {  // '/'
            if i + 1 < n && s[i + 1] == 62 {
                return Ok((attrs, true, i + 2));
            }
            i = i + 1;
            continue ;
        }
        // attribute name
        let name_start = i;
        let mut j: usize = i;
        while j < n && !is_name_end(s[j])
            invariant
                n == s@.len(),
                i <= j <= n,
                name_end(s@, i as int) == name_end(s@, j as int),
            decreases n - j,
        {
            j = j + 1;
        }
        if j == i {
            // a stray delimiter: step over it
            i = i + 1;
            continue ;
        }
        let name = subvec_bytes(s, name_start, j);
        let k = skip_ws(s, j);
        if k < n && s[k] == 61 {  // '='
            let v = skip_ws(s, k + 1);
            if v < n && (s[v] == 34 || s[v] == 39) {  // '"' or '\''
                let quote = s[v];
                let q = find_byte(s, v + 1, quote);
                if q >= n {
                    return Err(
                        ExecutionError::XmlParseError("attribute value is not closed".to_owned()),
                    );
                }
                let value = subvec_bytes(s, v + 1, q);
                let ghost pre = attrs_view(attrs@);
                attrs.push((name, value));
                proof {
                    assert(attrs_view(attrs@) =~= pre.push((name@, value@)));
                }
                i = q + 1;
            } else {
                // unquoted value: read to whitespace or '>'
                let mut e: usize = v;
                while e < n && !is_ws_exec(s[e]) && s[e] != 62
                    invariant
                        n == s@.len(),
                        v <= e <= n,
                        plain_end(s@, v as int) == plain_end(s@, e as int),
                    decreases n - e,
                {
                    e = e + 1;
                }
                let value = subvec_bytes(s, v, e);
                let ghost pre = attrs_view(attrs@);
                attrs.push((name, value));
                proof {
                    assert(attrs_view(attrs@) =~= pre.push((name@, value@)));
                }
                if e == i {
                    i = i + 1;
                } else {
                    i = e;
                }
            }
        } else {
            // attribute without a value
            let empty: Vec<u8> = Vec::new();
            let ghost pre = attrs_view(attrs@);
            attrs.push((name, empty));
            proof {
                assert(attrs_view(attrs@) =~= pre.push((name@, Seq::<u8>::empty())));
            }
            i = j;
        }
    }
}

/// Reads the next chunk of the document at `pos`: a tag, or a run of other
/// bytes. The chunk's raw bytes are exactly the consumed range.
pub fn next_chunk(s: &Vec<u8>, pos: usize) -> (r: Result<(XmlChunk, usize), ExecutionError>)
    requires
        pos < s@.len(),
    ensures
        r matches Ok((c, p)) ==> pos < p <= s@.len() && chunk_raw(c) == s@.subrange(
            pos as int,
            p as int,
        ) && chunk_name_in_raw(c),
        match r {
            Ok((c, p)) => spec_next_chunk(s@, pos as int) == Ok::<(ChunkM, int), ()>(
                (chunk_view(c), p as int),
            ),
            Err(e) => spec_next_chunk(s@, pos as int) is Err && e is XmlParseError,
        },
{
    let n = s.len();
    if s[pos] != 60 {  // not '<': a text run up to the next '<'
        let end = find_byte(s, pos + 1, 60);
        let raw = subvec_bytes(s, pos, end);
        return Ok((XmlChunk::Other { raw }, end));
    }
    if pos + 1 >= n {
        return Err(ExecutionError::XmlParseError("lone `<` at end of input".to_owned()));
    }
    let next = s[pos + 1];
    if next == 33 {  // '!': a comment, doctype or CDATA section
        if n - pos > 3 && s[pos + 2] == 45 && s[pos + 3] == 45 {
            match find_comment_end(s, pos + 4) {
                Some(end) => {
                    let raw = subvec_bytes(s, pos, end);
                    return Ok((XmlChunk::Other { raw }, end));
                },
                None => {
                    return Err(
                        ExecutionError::XmlParseError("comment is not closed".to_owned()),
                    );
                },
            }
        }
        let gt = find_byte(s, pos + 2, 62);
        if gt >= n {
            return Err(ExecutionError::XmlParseError("markup is not closed".to_owned()));
        }
        let raw = subvec_bytes(s, pos, gt + 1);
        return Ok((XmlChunk::Other { raw }, gt + 1));
    }
    if next == 63 {  // '?': a processing instruction
        let gt = find_byte(s, pos + 2, 62);
        if gt >= n {
            return Err(ExecutionError::XmlParseError("markup is not closed".to_owned()));
        }
        let raw = subvec_bytes(s, pos, gt + 1);
        return Ok((XmlChunk::Other { raw }, gt + 1));
    }
    if next == 47 {  // '/': a closing tag
        let mut j: usize = pos + 2;
        while j < n && !is_ws_exec(s[j]) && s[j] != 62
            invariant
                n == s@.len(),
                pos + 2 <= j <= n,
                plain_end(s@, pos + 2) == plain_end(s@, j as int),
            decreases n - j,
        {
            j = j + 1;
        }
        let name = subvec_bytes(s, pos + 2, j);
        let gt = find_byte(s, j, 62);
        if gt >= n {
            return Err(ExecutionError::XmlParseError("closing tag is not closed".to_owned()));
        }
        let raw = subvec_bytes(s, pos, gt + 1);
        proof {
            assert(raw@.subrange(2, 2 + name@.len() as int) =~= name@);
        }
        return Ok((XmlChunk::Close { name, raw }, gt + 1));
    }
    // an opening or self-closing tag
    let mut j: usize = pos + 1;
    while j < n && !is_name_end(s[j]) && s[j] != 60
        invariant
            n == s@.len(),
            pos + 1 <= j <= n,
            tag_name_end(s@, pos + 1) == tag_name_end(s@, j as int),
        decreases n - j,
    {
        j = j + 1;
    }
    let name = subvec_bytes(s, pos + 1, j);
    match scan_attributes(s, j) {
        Err(e) => Err(e),
        Ok((attributes, self_closing, end)) => {
            let raw = subvec_bytes(s, pos, end);
            proof {
                assert(raw@.subrange(1, 1 + name@.len() as int) =~= name@);
            }
            if self_closing {
                Ok((XmlChunk::SelfClose { name, attributes, raw }, end))
            } else {
                Ok((XmlChunk::Open { name, attributes, raw }, end))
            }
        },
    }
}

/// Splits a whole document into chunks. On success the chunks carry the
/// document's bytes exactly: their raw parts concatenate to the input.
pub fn scan_chunks(input: &Vec<u8>) -> (r: Result<Vec<XmlChunk>, ExecutionError>)
    ensures
        r matches Ok(chunks) ==> concat_raws(chunks@) == input@ && forall|i: int|
            0 <= i < chunks@.len() ==> chunk_name_in_raw(#[trigger] chunks@[i]),
        match r {
            Ok(chunks) => spec_scan_doc(input@, 0, Seq::empty()) == Ok::<Seq<ChunkM>, ()>(
                chunks_mview(chunks@),
            ),
            Err(e) => spec_scan_doc(input@, 0, Seq::empty()) is Err && e is XmlParseError,
        },
{
    let n = input.len();
    let mut chunks: Vec<XmlChunk> = Vec::new();
    let mut pos: usize = 0;
    proof {
        assert(concat_raws(chunks@) =~= input@.subrange(0, 0));
        assert(chunks_mview(chunks@) =~= Seq::<ChunkM>::empty());
    }
    while pos < n
        invariant
            n == input@.len(),
            0 <= pos <= n,
            concat_raws(chunks@) == input@.subrange(0, pos as int),
            forall|i: int| 0 <= i < chunks@.len() ==> chunk_name_in_raw(#[trigger] chunks@[i]),
            spec_scan_doc(input@, 0, Seq::empty()) == spec_scan_doc(
                input@,
                pos as int,
                chunks_mview(chunks@),
            ),
        decreases n - pos,
    {
        match next_chunk(input, pos) {
            Err(e) => {
                return Err(e);
            },
            Ok((chunk, p)) => {
                let ghost old_chunks = chunks@;
                chunks.push(chunk);
                proof {
                    assert(chunks@.drop_last() =~= old_chunks);
                    assert(concat_raws(chunks@) == concat_raws(old_chunks) + chunk_raw(
                        chunks@.last(),
                    ));
                    assert(input@.subrange(0, pos as int) + input@.subrange(pos as int, p as int)
                        =~= input@.subrange(0, p as int));
                    assert(chunks_mview(chunks@) =~= chunks_mview(old_chunks).push(
                        chunk_view(chunk),
                    ));
                }
                pos = p;
            },
        }
    }
    proof {
        assert(input@.subrange(0, n as int) =~= input@);
    }
    Ok(chunks)
}

} // verus!
