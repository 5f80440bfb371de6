use vstd::prelude::*;

verus! {

/// Where the vertices of an ASCII PLY mesh are and which triangles it has.
/// Vertex `k` is given by the three numbers of line `vertex_start + k`.
#[derive(Debug)]
pub struct PlyLayout {
    pub vertex_start: usize,
    pub vertex_count: usize,
    /// Per triangle, the vertices that become its corners `v0`, `v1`, `v2`.
    pub faces: Vec<[usize; 3]>,
}

/// Why a PLY text could not be read. Lines are counted from 0.
#[derive(Clone, Copy, Debug, PartialEq, Eq, Structural)]
pub enum PlyError {
    /// No line starts with `element vertex`.
    NoVertexCount,
    /// No line after it starts with `element face`.
    NoFaceCount,
    /// No line after that starts with `end_header`.
    NoEndHeader,
    /// The third space-separated field of this header line is not a count.
    BadCount(usize),
    /// The text ends before all vertex and face lines.
    Truncated,
    /// This face line does not hold three vertex numbers after its first word.
    BadFace(usize),
    /// This face line names a vertex that does not exist.
    BadIndex(usize),
}

pub open spec fn is_space(b: u8) -> bool {
    b == 0x20 || b == 0x09 || b == 0x0a || b == 0x0c || b == 0x0d
}

pub open spec fn is_digit(b: u8) -> bool {
    0x30 <= b <= 0x39
}

pub open spec fn starts_with(s: Seq<u8>, p: Seq<u8>) -> bool {
    p.len() <= s.len() && s.subrange(0, p.len() as int) == p
}

/// The first index at or after `p` that holds no whitespace, or the length.
pub open spec fn skip_space(s: Seq<u8>, p: int) -> int
    decreases s.len() - p,
{
    if 0 <= p < s.len() && is_space(s[p]) {
        skip_space(s, p + 1)
    } else {
        p
    }
}

/// The first index at or after `p` that holds whitespace, or the length.
pub open spec fn word_end(s: Seq<u8>, p: int) -> int
    decreases s.len() - p,
{
    if 0 <= p < s.len() && !is_space(s[p]) {
        word_end(s, p + 1)
    } else {
        p
    }
}

/// Where the `k`-th whitespace-separated word of `s` starts (at the length
/// where there is none).
pub open spec fn word_start(s: Seq<u8>, k: nat) -> int
    decreases k,
{
    if k == 0 {
        skip_space(s, 0)
    } else {
        skip_space(s, word_end(s, word_start(s, (k - 1) as nat)))
    }
}

/// The `k`-th whitespace-separated word of `s`, if there is one.
pub open spec fn word(s: Seq<u8>, k: nat) -> Option<Seq<u8>> {
    let b = word_start(s, k);
    if b < s.len() {
        Some(s.subrange(b, word_end(s, b)))
    } else {
        None
    }
}

/// The first index at or after `p` that holds a space, or the length.
pub open spec fn next_space(s: Seq<u8>, p: int) -> int
    decreases s.len() - p,
{
    if 0 <= p < s.len() && s[p] != 0x20 {
        next_space(s, p + 1)
    } else {
        p
    }
}

/// Where the `k`-th field of `s` split at single spaces starts.
pub open spec fn field_start(s: Seq<u8>, k: nat) -> Option<int>
    decreases k,
{
    if k == 0 {
        Some(0)
    } else {
        match field_start(s, (k - 1) as nat) {
            Some(p) => {
                let q = next_space(s, p);
                if q < s.len() {
                    Some(q + 1)
                } else {
                    None
                }
            },
            None => None,
        }
    }
}

/// The `k`-th field of `s` split at single spaces, if there is one.
pub open spec fn field(s: Seq<u8>, k: nat) -> Option<Seq<u8>> {
    match field_start(s, k) {
        Some(b) => Some(s.subrange(b, next_space(s, b))),
        None => None,
    }
}

/// The number that a string of decimal digits writes.
pub open spec fn decimal(s: Seq<u8>) -> nat
    decreases s.len(),
{
    if s.len() == 0 {
        0
    } else {
        decimal(s.drop_last()) * 10 + (s.last() - 0x30) as nat
    }
}

/// `s` without a leading `+`.
pub open spec fn unsigned_part(s: Seq<u8>) -> Seq<u8> {
    if s.len() > 0 && s[0] == 0x2b {
        s.drop_first()
    } else {
        s
    }
}

/// The count that `s` writes: decimal digits, after an optional `+`.
pub open spec fn count_of(s: Seq<u8>) -> Option<nat> {
    let d = unsigned_part(s);
    if d.len() > 0 && (forall|i: int| 0 <= i < d.len() ==> is_digit(#[trigger] d[i])) && decimal(d)
        <= usize::MAX {
        Some(decimal(d))
    } else {
        None
    }
}

/// The count that the optional `w` writes.
pub open spec fn count_in(w: Option<Seq<u8>>) -> Option<nat> {
    match w {
        Some(t) => count_of(t),
        None => None,
    }
}

/// The first line at or after `from` that starts with `p`.
pub open spec fn find_line(lines: Seq<Seq<u8>>, from: int, p: Seq<u8>) -> Option<int>
    decreases lines.len() - from,
{
    if 0 <= from < lines.len() {
        if starts_with(lines[from], p) {
            Some(from)
        } else {
            find_line(lines, from + 1, p)
        }
    } else {
        None
    }
}

/// The corners of the triangle that a face line gives: the three numbers
/// after its first word, the second and third swapped.
pub open spec fn face_of(line: Seq<u8>) -> Option<(nat, nat, nat)> {
    match (count_in(word(line, 1)), count_in(word(line, 2)), count_in(word(line, 3))) {
        (Some(x), Some(y), Some(z)) => Some((x, z, y)),
        _ => None,
    }
}

proof fn lemma_decimal_grows(s: Seq<u8>, n: int)
    requires
        0 <= n <= s.len(),
    ensures
        decimal(s.subrange(0, n)) <= decimal(s),
    decreases s.len() - n,
{
    if n < s.len() {
        lemma_decimal_grows(s.drop_last(), n);
        assert(s.drop_last().subrange(0, n) =~= s.subrange(0, n));
    } else {
        assert(s.subrange(0, n) =~= s);
    }
    if n < s.len() {
        let x = decimal(s.drop_last());
        assert(x * 10 >= x) by (nonlinear_arith);
        assert(decimal(s) >= x * 10);
    }
}

fn skip_space_from(s: &Vec<u8>, p: usize) -> (r: usize)
    requires
        p <= s.len(),
    ensures
        r == skip_space(s@, p as int),
        p <= r <= s.len(),
{
    let mut q = p;
    while q < s.len() && (s[q] == 0x20 || s[q] == 0x09 || s[q] == 0x0a || s[q] == 0x0c || s[q]
        == 0x0d)
        invariant
            p <= q <= s.len(),
            skip_space(s@, q as int) == skip_space(s@, p as int),
        decreases s.len() - q,
    {
        q = q + 1;
    }
    q
}

fn word_end_from(s: &Vec<u8>, p: usize) -> (r: usize)
    requires
        p <= s.len(),
    ensures
        r == word_end(s@, p as int),
        p <= r <= s.len(),
{
    let mut q = p;
    while q < s.len() && !(s[q] == 0x20 || s[q] == 0x09 || s[q] == 0x0a || s[q] == 0x0c || s[q]
        == 0x0d)
        invariant
            p <= q <= s.len(),
            word_end(s@, q as int) == word_end(s@, p as int),
        decreases s.len() - q,
    {
        q = q + 1;
    }
    q
}

fn next_space_from(s: &Vec<u8>, p: usize) -> (r: usize)
    requires
        p <= s.len(),
    ensures
        r == next_space(s@, p as int),
        p <= r <= s.len(),
{
    let mut q = p;
    while q < s.len() && s[q] != 0x20
        invariant
            p <= q <= s.len(),
            next_space(s@, q as int) == next_space(s@, p as int),
        decreases s.len() - q,
    {
        q = q + 1;
    }
    q
}

/// The count written by `s[b..e]`.
fn parse_count(s: &Vec<u8>, b: usize, e: usize) -> (r: Option<usize>)
    requires
        b <= e <= s.len(),
    ensures
        r matches Some(v) ==> count_of(s@.subrange(b as int, e as int)) == Some(v as nat),
        r is None ==> count_of(s@.subrange(b as int, e as int)) is None,
{
    let ghost w = s@.subrange(b as int, e as int);
    let mut i = b;
    if i < e && s[i] == 0x2b {
        i = i + 1;
    }
    let ghost d = unsigned_part(w);
    assert(d =~= s@.subrange(i as int, e as int));
    if i == e {
        assert(d.len() == 0);
        assert(count_of(w) is None);
        return None;
    }
    let start = i;
    let mut acc: usize = 0;
    while i < e
        invariant
            start <= i <= e <= s.len(),
            w == s@.subrange(b as int, e as int),
            d == unsigned_part(w),
            d =~= s@.subrange(start as int, e as int),
            forall|k: int| start <= k < i ==> is_digit(#[trigger] s@[k]),
            acc == decimal(s@.subrange(start as int, i as int)),
        decreases e - i,
    {
        let c = s[i];
        if c < 0x30 || c > 0x39 {
            assert(!is_digit(d[i - start]));
            return None;
        }
        let digit = (c - 0x30) as usize;
        let ghost next = s@.subrange(start as int, i + 1);
        assert(next.drop_last() =~= s@.subrange(start as int, i as int));
        if acc > (usize::MAX - digit) / 10 {
            proof {
                assert(decimal(next) == acc * 10 + digit);
                assert(acc * 10 + digit > usize::MAX) by (nonlinear_arith)
                    requires
                        acc > (usize::MAX - digit) / 10,
                        digit <= 9,
                ;
                assert(d.subrange(0, i + 1 - start) =~= next);
                lemma_decimal_grows(d, i + 1 - start);
                assert(decimal(d) > usize::MAX);
                assert(count_of(w) is None);
            }
            return None;
        }
        assert(acc * 10 + digit <= usize::MAX) by (nonlinear_arith)
            requires
                acc <= (usize::MAX - digit) / 10,
                digit <= 9,
        ;
        acc = acc * 10 + digit;
        i = i + 1;
    }
    assert forall|k: int| 0 <= k < d.len() implies is_digit(#[trigger] d[k]) by {
        assert(d[k] == s@[start + k]);
    }
    Some(acc)
}

/// The `k`-th whitespace-separated word of `s`, as a range of it.
fn find_word(s: &Vec<u8>, k: usize) -> (r: Option<(usize, usize)>)
    ensures
        r matches Some((b, e)) ==> b <= e <= s.len() && word(s@, k as nat) == Some(
            s@.subrange(b as int, e as int),
        ),
        r is None ==> word(s@, k as nat) is None,
{
    let mut b = skip_space_from(s, 0);
    let mut j: usize = 0;
    while j < k
        invariant
            j <= k,
            b <= s.len(),
            b == word_start(s@, j as nat),
        decreases k - j,
    {
        let e = word_end_from(s, b);
        b = skip_space_from(s, e);
        j = j + 1;
    }
    if b < s.len() {
        Some((b, word_end_from(s, b)))
    } else {
        None
    }
}

/// The `k`-th field of `s` split at single spaces, as a range of it.
fn find_field(s: &Vec<u8>, k: usize) -> (r: Option<(usize, usize)>)
    ensures
        r matches Some((b, e)) ==> b <= e <= s.len() && field(s@, k as nat) == Some(
            s@.subrange(b as int, e as int),
        ),
        r is None ==> field(s@, k as nat) is None,
{
    let mut b: usize = 0;
    let mut j: usize = 0;
    while j < k
        invariant
            j <= k,
            b <= s.len(),
            field_start(s@, j as nat) == Some(b as int),
        decreases k - j,
    {
        let q = next_space_from(s, b);
        if q >= s.len() {
            proof {
                lemma_field_gone(s@, (j + 1) as nat, k as nat);
            }
            return None;
        }
        b = q + 1;
        j = j + 1;
    }
    Some((b, next_space_from(s, b)))
}

proof fn lemma_field_gone(s: Seq<u8>, j: nat, k: nat)
    requires
        j <= k,
        field_start(s, j) is None,
    ensures
        field_start(s, k) is None,
    decreases k - j,
{
    if j < k {
        lemma_field_gone(s, j + 1, k);
    }
}

fn line_starts_with(line: &Vec<u8>, p: &[u8]) -> (r: bool)
    ensures
        r == starts_with(line@, p@),
{
    if p.len() > line.len() {
        return false;
    }
    let mut i: usize = 0;
    while i < p.len()
        invariant
            p.len() <= line.len(),
            i <= p.len(),
            forall|k: int| 0 <= k < i ==> line@[k] == p@[k],
        decreases p.len() - i,
    {
        if line[i] != p[i] {
            assert(line@.subrange(0, p@.len() as int)[i as int] != p@[i as int]);
            return false;
        }
        i = i + 1;
    }
    assert(line@.subrange(0, p@.len() as int) =~= p@);
    true
}

/// The first line at or after `from` that starts with `p`.
fn find_line_from(lines: &Vec<Vec<u8>>, from: usize, p: &[u8]) -> (r: Option<usize>)
    ensures
        r matches Some(i) ==> find_line(lines@.map_values(|l: Vec<u8>| l@), from as int, p@) == Some(
            i as int,
        ),
        r is None ==> find_line(lines@.map_values(|l: Vec<u8>| l@), from as int, p@) is None,
{
    let ghost ls = lines@.map_values(|l: Vec<u8>| l@);
    let mut i = from;
    while i < lines.len()
        invariant
            from <= i,
            ls == lines@.map_values(|l: Vec<u8>| l@),
            find_line(ls, i as int, p@) == find_line(ls, from as int, p@),
        decreases lines.len() - i,
    {
        if line_starts_with(&lines[i], p) {
            return Some(i);
        }
        i = i + 1;
    }
    None
}

/// The count in the third space-separated field of a header line.
fn header_count(line: &Vec<u8>) -> (r: Option<usize>)
    ensures
        r matches Some(v) ==> count_in(field(line@, 2)) == Some(v as nat),
        r is None ==> count_in(field(line@, 2)) is None,
{
    match find_field(line, 2) {
        Some((b, e)) => parse_count(line, b, e),
        None => None,
    }
}

/// The count in the `k`-th whitespace-separated word of a line.
fn word_count(line: &Vec<u8>, k: usize) -> (r: Option<usize>)
    ensures
        r matches Some(v) ==> count_in(word(line@, k as nat)) == Some(v as nat),
        r is None ==> count_in(word(line@, k as nat)) is None,
{
    match find_word(line, k) {
        Some((b, e)) => parse_count(line, b, e),
        None => None,
    }
}

/// The triangle of a face line.
fn parse_face(line: &Vec<u8>) -> (r: Option<[usize; 3]>)
    ensures
        r matches Some(f) ==> face_of(line@) == Some((f[0] as nat, f[1] as nat, f[2] as nat)),
        r is None ==> face_of(line@) is None,
{
    let x = word_count(line, 1);
    let y = word_count(line, 2);
    let z = word_count(line, 3);
    match (x, y, z) {
        (Some(x), Some(y), Some(z)) => Some([x, z, y]),
        _ => None,
    }
}

/// `element vertex`
pub open spec fn vertex_key() -> Seq<u8> {
    seq![0x65u8, 0x6c, 0x65, 0x6d, 0x65, 0x6e, 0x74, 0x20, 0x76, 0x65, 0x72, 0x74, 0x65, 0x78]
}

/// `element face`
pub open spec fn face_key() -> Seq<u8> {
    seq![0x65u8, 0x6c, 0x65, 0x6d, 0x65, 0x6e, 0x74, 0x20, 0x66, 0x61, 0x63, 0x65]
}

/// `end_header`
pub open spec fn end_key() -> Seq<u8> {
    seq![0x65u8, 0x6e, 0x64, 0x5f, 0x68, 0x65, 0x61, 0x64, 0x65, 0x72]
}

/// Where the vertex lines start, and how many vertices and faces follow,
/// as the header gives them. The header is read in order: the first line
/// that starts with `element vertex`, the first after it that starts with
/// `element face`, and the first after that that starts with `end_header`.
pub open spec fn header(ls: Seq<Seq<u8>>) -> Result<(int, nat, nat), PlyError> {
    match find_line(ls, 0, vertex_key()) {
        None => Err(PlyError::NoVertexCount),
        Some(vl) => match count_in(field(ls[vl], 2)) {
            None => Err(PlyError::BadCount(vl as usize)),
            Some(vc) => match find_line(ls, vl + 1, face_key()) {
                None => Err(PlyError::NoFaceCount),
                Some(fl) => match count_in(field(ls[fl], 2)) {
                    None => Err(PlyError::BadCount(fl as usize)),
                    Some(fc) => match find_line(ls, fl + 1, end_key()) {
                        None => Err(PlyError::NoEndHeader),
                        Some(hl) => if hl + 1 + vc + fc > ls.len() {
                            Err(PlyError::Truncated)
                        } else {
                            Ok((hl + 1, vc, fc))
                        },
                    },
                },
            },
        },
    }
}

/// The first fault among face lines `k..fc` of the block at `base`, where
/// there are `vc` vertices.
pub open spec fn face_fault(ls: Seq<Seq<u8>>, base: int, vc: nat, k: int, fc: int) -> Option<
    PlyError,
>
    decreases fc - k,
{
    if k < 0 || k >= fc {
        None
    } else {
        match face_of(ls[base + k]) {
            None => Some(PlyError::BadFace((base + k) as usize)),
            Some((a, b, c)) => if a < vc && b < vc && c < vc {
                face_fault(ls, base, vc, k + 1, fc)
            } else {
                Some(PlyError::BadIndex((base + k) as usize))
            },
        }
    }
}

/// What reading the lines `ls` gives: the header's numbers, or the first fault.
pub open spec fn ply_outcome(ls: Seq<Seq<u8>>) -> Result<(int, nat, nat), PlyError> {
    match header(ls) {
        Err(e) => Err(e),
        Ok((st, vc, fc)) => match face_fault(ls, st + vc, vc, 0, fc as int) {
            Some(e) => Err(e),
            None => Ok((st, vc, fc)),
        },
    }
}

/// Reads the header and the face lines of an ASCII PLY mesh given as its
/// lines. Each face line gives a count and three vertex numbers; its
/// triangle takes them as corners in the order first, third, second.
pub fn parse_ply(lines: &Vec<Vec<u8>>) -> (r: Result<PlyLayout, PlyError>)
    ensures
        ({
            let ls = lines@.map_values(|l: Vec<u8>| l@);
            match r {
                Ok(p) => ply_outcome(ls) == Ok::<(int, nat, nat), PlyError>(
                    (p.vertex_start as int, p.vertex_count as nat, p.faces.len() as nat),
                ) && forall|k: int|
                    0 <= k < p.faces.len() ==> face_of(ls[p.vertex_start + p.vertex_count + k])
                        == Some(
                        (
                            #[trigger] p.faces@[k][0] as nat,
                            p.faces@[k][1] as nat,
                            p.faces@[k][2] as nat,
                        ),
                    ),
                Err(e) => ply_outcome(ls) == Err::<(int, nat, nat), PlyError>(e),
            }
        }),
{
    let ghost ls = lines@.map_values(|l: Vec<u8>| l@);
    assert(ls.len() == lines.len());
    let vkey: [u8; 14] = [
        0x65, 0x6c, 0x65, 0x6d, 0x65, 0x6e, 0x74, 0x20, 0x76, 0x65, 0x72, 0x74, 0x65, 0x78,
    ];
    let fkey: [u8; 12] = [0x65, 0x6c, 0x65, 0x6d, 0x65, 0x6e, 0x74, 0x20, 0x66, 0x61, 0x63, 0x65];
    let ekey: [u8; 10] = [0x65, 0x6e, 0x64, 0x5f, 0x68, 0x65, 0x61, 0x64, 0x65, 0x72];
    assert(vkey@ =~= vertex_key());
    assert(fkey@ =~= face_key());
    assert(ekey@ =~= end_key());
    let vl = match find_line_from(lines, 0, &vkey) {
        None => {
            return Err(PlyError::NoVertexCount);
        },
        Some(i) => i,
    };
    proof {
        lemma_found_in_range(ls, 0, vertex_key());
    }
    assert(ls[vl as int] == lines@[vl as int]@);
    let vc = match header_count(&lines[vl]) {
        None => {
            return Err(PlyError::BadCount(vl));
        },
        Some(c) => c,
    };
    let fl = match find_line_from(lines, vl + 1, &fkey) {
        None => {
            return Err(PlyError::NoFaceCount);
        },
        Some(i) => i,
    };
    proof {
        lemma_found_in_range(ls, vl + 1, face_key());
    }
    assert(ls[fl as int] == lines@[fl as int]@);
    let fc = match header_count(&lines[fl]) {
        None => {
            return Err(PlyError::BadCount(fl));
        },
        Some(c) => c,
    };
    let hl = match find_line_from(lines, fl + 1, &ekey) {
        None => {
            return Err(PlyError::NoEndHeader);
        },
        Some(i) => i,
    };
    proof {
        lemma_found_in_range(ls, fl + 1, end_key());
    }
    let start = hl + 1;
    if vc > lines.len() - start || fc > lines.len() - start - vc {
        return Err(PlyError::Truncated);
    }
    let base = start + vc;
    let mut faces: Vec<[usize; 3]> = Vec::new();
    let mut k: usize = 0;
    while k < fc
        invariant
            ls == lines@.map_values(|l: Vec<u8>| l@),
            header(ls) == Ok::<(int, nat, nat), PlyError>((start as int, vc as nat, fc as nat)),
            base == start + vc,
            base + fc <= lines.len(),
            k <= fc,
            faces.len() == k,
            face_fault(ls, base as int, vc as nat, 0, fc as int) == face_fault(
                ls,
                base as int,
                vc as nat,
                k as int,
                fc as int,
            ),
            forall|j: int|
                0 <= j < k ==> face_of(ls[base + j]) == Some(
                    (
                        #[trigger] faces@[j][0] as nat,
                        faces@[j][1] as nat,
                        faces@[j][2] as nat,
                    ),
                ),
        decreases fc - k,
    {
        let l = base + k;
        assert(ls[l as int] == lines@[l as int]@);
        let f = match parse_face(&lines[l]) {
            None => {
                return Err(PlyError::BadFace(l));
            },
            Some(f) => f,
        };
        if f[0] >= vc || f[1] >= vc || f[2] >= vc {
            return Err(PlyError::BadIndex(l));
        }
        faces.push(f);
        k = k + 1;
    }
    Ok(PlyLayout { vertex_start: start, vertex_count: vc, faces })
}

proof fn lemma_found_in_range(ls: Seq<Seq<u8>>, from: int, p: Seq<u8>)
    ensures
        find_line(ls, from, p) matches Some(i) ==> from <= i < ls.len() && 0 <= i,
    decreases ls.len() - from,
{
    if 0 <= from < ls.len() && !starts_with(ls[from], p) {
        lemma_found_in_range(ls, from + 1, p);
    }
}

} // verus!
