use vstd::prelude::*;

verus! {

/// The pattern `p` occurs in `s` at position `i`.
pub open spec fn occurs_at(s: Seq<u8>, p: Seq<u8>, i: int) -> bool {
    0 <= i && i + p.len() <= s.len() && s.subrange(i, i + p.len()) =~= p
}

/// The position of the first occurrence of `p` in `s` at or after `from`,
/// if there is one.
pub open spec fn find_from(s: Seq<u8>, p: Seq<u8>, from: nat) -> Option<nat>
    decreases s.len() - from,
{
    if from + p.len() > s.len() {
        None
    } else if occurs_at(s, p, from as int) {
        Some(from)
    } else {
        find_from(s, p, (from + 1) as nat)
    }
}

/// A line with a trailing carriage return (the second half of a CRLF line
/// ending) has it stripped; any other line is kept as it is.
pub open spec fn strip_cr(l: Seq<u8>) -> Seq<u8> {
    if l.len() > 0 && l[l.len() - 1] == 13 {
        l.drop_last()
    } else {
        l
    }
}

/// What `find_from` returns, where it finds something: a position at or
/// after `from` at which the pattern occurs, with the pattern inside the
/// text.
pub proof fn lemma_find_from_some(s: Seq<u8>, p: Seq<u8>, from: nat)
    requires
        find_from(s, p, from) is Some,
    ensures
        from <= find_from(s, p, from)->Some_0,
        find_from(s, p, from)->Some_0 + p.len() <= s.len(),
        occurs_at(s, p, find_from(s, p, from)->Some_0 as int),
    decreases s.len() - from,
{
    if from + p.len() > s.len() {
    } else if occurs_at(s, p, from as int) {
    } else {
        lemma_find_from_some(s, p, (from + 1) as nat);
    }
}

/// The lines of a byte text, split at each line feed, with a carriage
/// return before a line feed stripped; a trailing line terminator opens
/// no further empty line.
pub open spec fn spec_lines(s: Seq<u8>) -> Seq<Seq<u8>>
    decreases s.len(),
{
    if s.len() == 0 {
        seq![]
    } else {
        proof {
            if find_from(s, seq![10u8], 0) is Some {
                lemma_find_from_some(s, seq![10u8], 0);
            }
        }
        match find_from(s, seq![10u8], 0) {
            Some(i) => seq![strip_cr(s.subrange(0, i as int))]
                + spec_lines(s.subrange((i + 1) as int, s.len() as int)),
            None => seq![s],
        }
    }
}

/// Searching a suffix of `s` is searching `s` from the suffix's start:
/// occurrences shift by the offset.
proof fn lemma_find_from_suffix(s: Seq<u8>, p: Seq<u8>, off: nat, from: nat)
    requires
        off + from <= s.len(),
    ensures
        find_from(s, p, (off + from) as nat) == match find_from(
            s.subrange(off as int, s.len() as int),
            p,
            from,
        ) {
            Some(i) => Some((off + i) as nat),
            None => None::<nat>,
        },
    decreases s.len() - off - from,
{
    let t = s.subrange(off as int, s.len() as int);
    assert(occurs_at(s, p, (off + from) as int) == occurs_at(t, p, from as int)) by {
        if occurs_at(s, p, (off + from) as int) {
            assert(t.subrange(from as int, from + p.len() as int) =~= p);
        }
        if occurs_at(t, p, from as int) {
            assert(s.subrange((off + from) as int, (off + from + p.len()) as int) =~= p);
        }
    }
    if off + from + p.len() > s.len() {
    } else if occurs_at(s, p, (off + from) as int) {
    } else {
        lemma_find_from_suffix(s, p, off, (from + 1) as nat);
    }
}

/// The marker that precedes the address in the answer of the lookup
/// service: the bytes of `"Address: "`.
pub open spec fn keyword_bytes() -> Seq<u8> {
    seq![65u8, 100u8, 100u8, 114u8, 101u8, 115u8, 115u8, 58u8, 32u8]
}

/// The marker that closes the answer's body: the bytes of `"</body>"`.
pub open spec fn end_marker_bytes() -> Seq<u8> {
    seq![60u8, 47u8, 98u8, 111u8, 100u8, 121u8, 62u8]
}

/// A line holds both the address marker and the closing marker.
pub open spec fn line_has_markers(l: Seq<u8>) -> bool {
    find_from(l, keyword_bytes(), 0) is Some && find_from(l, end_marker_bytes(), 0) is Some
}

/// What a line with both markers yields: the bytes after the first
/// address marker and before the first closing marker, or nothing where
/// the first closing marker begins before the marked address does.
pub open spec fn extract_from_line(l: Seq<u8>) -> Option<Seq<u8>>
    recommends
        line_has_markers(l),
{
    let start = find_from(l, keyword_bytes(), 0)->Some_0;
    let end = find_from(l, end_marker_bytes(), 0)->Some_0;
    if start + keyword_bytes().len() <= end {
        Some(l.subrange((start + keyword_bytes().len()) as int, end as int))
    } else {
        None
    }
}

/// The address the whole answer yields: what the first line that holds
/// both markers yields, or nothing where no line holds them.
pub open spec fn spec_external_ip(lines: Seq<Seq<u8>>) -> Option<Seq<u8>>
    decreases lines.len(),
{
    if lines.len() == 0 {
        None
    } else if line_has_markers(lines[0]) {
        extract_from_line(lines[0])
    } else {
        spec_external_ip(lines.drop_first())
    }
}

/// Whether `p` occurs in `s` exactly at position `i`.
fn match_at(s: &[u8], i: usize, p: &[u8]) -> (r: bool)
    requires
        i + p@.len() <= s@.len(),
    ensures
        r == occurs_at(s@, p@, i as int),
{
    let n = s.len();
    let m = p.len();
    let mut j: usize = 0;
    while j < m
        invariant
            j <= m,
            n == s@.len(),
            m == p@.len(),
            i + m <= n,
            forall|k: int| 0 <= k < j ==> s@[i + k] == p@[k],
        decreases m - j,
    {
        if s[i + j] != p[j] {
            proof {
                assert(s@.subrange(i as int, i + p@.len())[j as int] != p@[j as int]);
            }
            return false;
        }
        j += 1;
    }
    proof {
        assert(s@.subrange(i as int, i + p@.len()) =~= p@);
    }
    true
}

/// Find the first occurrence of `p` in `s` at or after position `from`.
fn find(s: &[u8], from: usize, p: &[u8]) -> (r: Option<usize>)
    requires
        from <= s@.len(),
    ensures
        match r {
            Some(i) => from <= i && find_from(s@, p@, from as nat) == Some(i as nat),
            None => find_from(s@, p@, from as nat) is None,
        },
{
    let n = s.len();
    let m = p.len();
    if m > n || from > n - m {
        return None;
    }
    let mut i: usize = from;
    while i <= n - m
        invariant
            from <= i,
            m <= n,
            n == s@.len(),
            m == p@.len(),
            i <= n - m + 1,
            find_from(s@, p@, from as nat) == find_from(s@, p@, i as nat),
        decreases n - i,
    {
        if match_at(s, i, p) {
            return Some(i);
        }
        i += 1;
    }
    None
}

/// Copy the bytes of `s` from position `a` up to `b` into a fresh vector.
fn copy_range(s: &[u8], a: usize, b: usize) -> (r: Vec<u8>)
    requires
        a <= b,
        b <= s@.len(),
    ensures
        r@ == s@.subrange(a as int, b as int),
{
    let mut r: Vec<u8> = Vec::new();
    let mut i: usize = a;
    while i < b
        invariant
            a <= i && i <= b,
            b <= s@.len(),
            r@ == s@.subrange(a as int, i as int),
        decreases b - i,
    {
        r.push(s[i]);
        proof {
            assert(r@ =~= s@.subrange(a as int, (i + 1) as int));
        }
        i += 1;
    }
    r
}

/// The address marker, `"Address: "`, as a vector of bytes.
fn make_keyword() -> (r: Vec<u8>)
    ensures
        r@ == keyword_bytes(),
{
    let mut r: Vec<u8> = Vec::new();
    r.push(65);
    r.push(100);
    r.push(100);
    r.push(114);
    r.push(101);
    r.push(115);
    r.push(115);
    r.push(58);
    r.push(32);
    proof {
        assert(r@ =~= keyword_bytes());
    }
    r
}

/// The closing marker, `"</body>"`, as a vector of bytes.
fn make_end_marker() -> (r: Vec<u8>)
    ensures
        r@ == end_marker_bytes(),
{
    let mut r: Vec<u8> = Vec::new();
    r.push(60);
    r.push(47);
    r.push(98);
    r.push(111);
    r.push(100);
    r.push(121);
    r.push(62);
    proof {
        assert(r@ =~= end_marker_bytes());
    }
    r
}

/// A single line feed as a vector of bytes.
fn make_newline() -> (r: Vec<u8>)
    ensures
        r@ == seq![10u8],
{
    let mut r: Vec<u8> = Vec::new();
    r.push(10);
    proof {
        assert(r@ =~= seq![10u8]);
    }
    r
}

/// Scan one line for the two markers; say whether both are there, and if
/// so hand out the bytes between the first address marker and the first
/// closing marker.
fn scan_line(line: &[u8], kw: &[u8], em: &[u8]) -> (r: (bool, Option<Vec<u8>>))
    requires
        kw@ == keyword_bytes(),
        em@ == end_marker_bytes(),
    ensures
        r.0 == line_has_markers(line@),
        r.0 ==> (match r.1 {
            Some(ip) => extract_from_line(line@) == Some(ip@),
            None => extract_from_line(line@) is None,
        }),
{
    let st_opt = find(line, 0, kw);
    let en_opt = find(line, 0, em);
    match (st_opt, en_opt) {
        (Some(st), Some(en)) => {
            if en >= st && en - st >= kw.len() {
                proof {
                    lemma_find_from_some(line@, em@, 0);
                }
                let ip = copy_range(line, st + kw.len(), en);
                (true, Some(ip))
            } else {
                (true, None)
            }
        }
        _ => (false, None),
    }
}

/// Pull the advertised address out of the lookup service's answer.
///
/// The answer is scanned line by line; the first line that holds both the
/// address marker and the closing marker decides: the bytes between them
/// are the address, and a line whose closing marker stands before the
/// marked address yields nothing. Where no line holds both markers there
/// is no address to hand out.
pub fn get_external_ip(response: &[u8]) -> (r: Option<Vec<u8>>)
    ensures
        match r {
            Some(ip) => spec_external_ip(spec_lines(response@)) == Some(ip@),
            None => spec_external_ip(spec_lines(response@)) is None,
        },
{
    let kw = make_keyword();
    let em = make_end_marker();
    let nl = make_newline();
    let n = response.len();
    let mut pos: usize = 0;
    proof {
        assert(response@.subrange(0, n as int) =~= response@);
    }
    loop
        invariant
            pos <= n,
            n == response@.len(),
            kw@ == keyword_bytes(),
            em@ == end_marker_bytes(),
            nl@ == seq![10u8],
            spec_external_ip(spec_lines(response@)) == spec_external_ip(
                spec_lines(response@.subrange(pos as int, n as int)),
            ),
        decreases n - pos,
    {
        let ghost suffix = response@.subrange(pos as int, n as int);
        match find(response, pos, nl.as_slice()) {
            Some(i) => {
                proof {
                    lemma_find_from_some(response@, seq![10u8], pos as nat);
                    lemma_find_from_suffix(response@, seq![10u8], pos as nat, 0);
                }
                let mut line = copy_range(response, pos, i);
                if line.len() > 0 && line[line.len() - 1] == 13 {
                    let _popped: Option<u8> = line.pop();
                }
                proof {
                    assert(line@ == strip_cr(response@.subrange(pos as int, i as int)));
                    assert(suffix.subrange(0, i - pos) =~= response@.subrange(
                        pos as int,
                        i as int,
                    ));
                    assert(suffix.subrange(i - pos + 1, suffix.len() as int)
                        =~= response@.subrange((i + 1) as int, n as int));
                    assert(spec_lines(suffix) == seq![line@] + spec_lines(
                        response@.subrange((i + 1) as int, n as int),
                    ));
                    assert((seq![line@] + spec_lines(response@.subrange((i + 1) as int, n as int)))
                        .drop_first() =~= spec_lines(
                        response@.subrange((i + 1) as int, n as int),
                    ));
                }
                let scanned = scan_line(line.as_slice(), kw.as_slice(), em.as_slice());
                if scanned.0 {
                    return scanned.1;
                }
                pos = i + 1;
            }
            None => {
                proof {
                    lemma_find_from_suffix(response@, seq![10u8], pos as nat, 0);
                }
                if pos == n {
                    proof {
                        assert(suffix.len() == 0);
                        assert(spec_lines(suffix) =~= Seq::<Seq<u8>>::empty());
                        assert(spec_external_ip(spec_lines(suffix)) is None);
                    }
                    return None;
                }
                let line = copy_range(response, pos, n);
                proof {
                    assert(line@ == suffix);
                    assert(spec_lines(suffix) == seq![suffix]);
                    assert(seq![suffix].drop_first() =~= Seq::<Seq<u8>>::empty());
                }
                let scanned = scan_line(line.as_slice(), kw.as_slice(), em.as_slice());
                if scanned.0 {
                    return scanned.1;
                }
                proof {
                    assert(seq![suffix][0] == suffix);
                    assert(!line_has_markers(suffix));
                    assert(spec_external_ip(seq![suffix]) == spec_external_ip(
                        seq![suffix].drop_first(),
                    ));
                    assert(spec_external_ip(seq![suffix]) is None);
                }
                return None;
            }
        }
    }
}

} // verus!
