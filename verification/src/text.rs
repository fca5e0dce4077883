//! Character-level text utilities shared by the mail logic: Unicode
//! whitespace, trimming, whitespace splitting, ASCII case folding and
//! substring search, all over `Seq<char>` models.
use vstd::prelude::*;

verus! {

/// Rust's `char::is_whitespace`: the Unicode `White_Space` property.
pub open spec fn is_ws(c: char) -> bool {
    let u = c as u32;
    ||| 0x9 <= u <= 0xD
    ||| u == 0x20
    ||| u == 0x85
    ||| u == 0xA0
    ||| u == 0x1680
    ||| 0x2000 <= u <= 0x200A
    ||| u == 0x2028
    ||| u == 0x2029
    ||| u == 0x202F
    ||| u == 0x205F
    ||| u == 0x3000
}

pub fn is_whitespace(c: char) -> (b: bool)
    ensures
        b == is_ws(c),
{
    let u = c as u32;
    (0x9 <= u && u <= 0xD) || u == 0x20 || u == 0x85 || u == 0xA0 || u == 0x1680 || (0x2000 <= u
        && u <= 0x200A) || u == 0x2028 || u == 0x2029 || u == 0x202F || u == 0x205F || u == 0x3000
}

/// The characters of a string slice.
#[verifier::external_body]
pub(crate) fn chars_of(s: &str) -> (r: Vec<char>)
    ensures
        r@ == s@,
{
    s.chars().collect()
}

/// A string made of the given characters.
#[verifier::external_body]
pub(crate) fn string_of(v: &[char]) -> (r: String)
    ensures
        r@ == v@,
{
    v.iter().collect()
}

/// What `str::to_lowercase` gives for these characters: the full Unicode
/// lowercase mapping, which depends on the characters alone.
pub uninterp spec fn unicode_lower(s: Seq<char>) -> Seq<char>;

/// `str::to_lowercase`. Trusted: the result is the Unicode lowercase
/// mapping of `s`, named [`unicode_lower`]; nothing more is claimed.
#[verifier::external_body]
pub(crate) fn to_lowercase(s: &str) -> (r: String)
    ensures
        r@ == unicode_lower(s@),
{
    s.to_lowercase()
}

} // verus!
verus! {

pub open spec fn lower_char(c: char) -> char {
    if 'A' <= c && c <= 'Z' {
        ((c as u32) + 32) as char
    } else {
        c
    }
}

pub fn ascii_lower_char(c: char) -> (r: char)
    ensures
        r == lower_char(c),
{
    if 'A' <= c && c <= 'Z' {
        let b: u8 = ((c as u32) + 32) as u8;
        b as char
    } else {
        c
    }
}

/// ASCII case folding of a whole sequence (non-ASCII characters unchanged).
pub open spec fn lower(s: Seq<char>) -> Seq<char> {
    s.map_values(|c: char| lower_char(c))
}

/// Equality up to ASCII case, as `str::eq_ignore_ascii_case`.
pub open spec fn same_ignoring_ascii_case(a: Seq<char>, b: Seq<char>) -> bool {
    lower(a) == lower(b)
}

pub fn ascii_lowercase(s: &[char]) -> (r: Vec<char>)
    ensures
        r@ == lower(s@),
{
    let mut r: Vec<char> = Vec::new();
    let mut i: usize = 0;
    while i < s.len()
        invariant
            i <= s@.len(),
            r@ == lower(s@.take(i as int)),
        decreases s@.len() - i,
    {
        let c = ascii_lower_char(s[i]);
        r.push(c);
        i = i + 1;
        assert(lower(s@.take(i as int)) =~= lower(s@.take(i - 1 as int)).push(c));
    }
    assert(s@.take(s@.len() as int) =~= s@);
    r
}

pub fn eq_ignore_ascii_case(a: &[char], b: &[char]) -> (r: bool)
    ensures
        r == same_ignoring_ascii_case(a@, b@),
{
    if a.len() != b.len() {
        assert(lower(a@).len() != lower(b@).len());
        return false;
    }
    let mut i: usize = 0;
    while i < a.len()
        invariant
            i <= a@.len(),
            a@.len() == b@.len(),
            forall|j: int| 0 <= j < i ==> lower_char(a@[j]) == lower_char(b@[j]),
        decreases a@.len() - i,
    {
        if ascii_lower_char(a[i]) != ascii_lower_char(b[i]) {
            assert(lower(a@)[i as int] != lower(b@)[i as int]);
            return false;
        }
        i = i + 1;
    }
    assert(lower(a@) =~= lower(b@));
    true
}

/// `h` begins with `n`.
pub open spec fn starts_with(h: Seq<char>, n: Seq<char>) -> bool {
    n.len() <= h.len() && h.take(n.len() as int) == n
}

pub fn has_prefix(h: &[char], n: &[char]) -> (r: bool)
    ensures
        r == starts_with(h@, n@),
{
    if n.len() > h.len() {
        return false;
    }
    let mut i: usize = 0;
    while i < n.len()
        invariant
            i <= n@.len() <= h@.len(),
            forall|j: int| 0 <= j < i ==> h@[j] == n@[j],
        decreases n@.len() - i,
    {
        if h[i] != n[i] {
            assert(h@.take(n@.len() as int)[i as int] != n@[i as int]);
            return false;
        }
        i = i + 1;
    }
    assert(h@.take(n@.len() as int) =~= n@);
    true
}

/// `n` occurs in `h` at position `i`.
pub open spec fn occurs_at(h: Seq<char>, n: Seq<char>, i: int) -> bool {
    0 <= i && i + n.len() <= h.len() && h.subrange(i, i + n.len()) == n
}

/// `n` is a substring of `h`, as `str::contains`.
pub open spec fn contains(h: Seq<char>, n: Seq<char>) -> bool {
    exists|i: int| occurs_at(h, n, i)
}

fn occurs_at_exec(h: &[char], n: &[char], i: usize) -> (r: bool)
    requires
        i + n@.len() <= h@.len(),
    ensures
        r == occurs_at(h@, n@, i as int),
{
    let hl = h.len();
    let mut j: usize = 0;
    while j < n.len()
        invariant
            j <= n@.len(),
            i + n@.len() <= h@.len(),
            hl == h@.len(),
            forall|k: int| 0 <= k < j ==> h@[i + k] == n@[k],
        decreases n@.len() - j,
    {
        if h[i + j] != n[j] {
            assert(h@.subrange(i as int, i + n@.len())[j as int] != n@[j as int]);
            return false;
        }
        j = j + 1;
    }
    assert(h@.subrange(i as int, i + n@.len()) =~= n@);
    true
}

pub fn contains_chars(h: &[char], n: &[char]) -> (r: bool)
    ensures
        r == contains(h@, n@),
{
    if n.len() > h.len() {
        return false;
    }
    let last = h.len() - n.len();
    let mut i: usize = 0;
    loop
        invariant
            last + n@.len() == h@.len(),
            i <= last,
            forall|k: int| 0 <= k < i ==> !occurs_at(h@, n@, k),
        decreases last - i,
    {
        if occurs_at_exec(h, n, i) {
            return true;
        }
        if i == last {
            assert forall|k: int| occurs_at(h@, n@, k) implies k <= last by {}
            return false;
        }
        i = i + 1;
    }
}

/// Leading whitespace removed, as `str::trim_start`.
pub open spec fn trim_start(s: Seq<char>) -> Seq<char>
    decreases s.len(),
{
    if s.len() > 0 && is_ws(s[0]) {
        trim_start(s.drop_first())
    } else {
        s
    }
}

/// Trailing whitespace removed, as `str::trim_end`.
pub open spec fn trim_end(s: Seq<char>) -> Seq<char>
    decreases s.len(),
{
    if s.len() > 0 && is_ws(s.last()) {
        trim_end(s.drop_last())
    } else {
        s
    }
}

/// Both ends trimmed, as `str::trim`.
pub open spec fn trim(s: Seq<char>) -> Seq<char> {
    trim_end(trim_start(s))
}

pub proof fn lemma_trim_start_skip(s: Seq<char>, i: int)
    requires
        0 <= i <= s.len(),
        forall|j: int| 0 <= j < i ==> is_ws(s[j]),
    ensures
        trim_start(s) == trim_start(s.skip(i)),
    decreases i,
{
    if i > 0 {
        assert(s.drop_first().skip(i - 1) =~= s.skip(i));
        lemma_trim_start_skip(s.drop_first(), i - 1);
    } else {
        assert(s.skip(0) =~= s);
    }
}

pub proof fn lemma_trim_end_take(s: Seq<char>, i: int)
    requires
        0 <= i <= s.len(),
        forall|j: int| i <= j < s.len() ==> is_ws(s[j]),
    ensures
        trim_end(s) == trim_end(s.take(i)),
    decreases s.len() - i,
{
    if i < s.len() {
        assert(s.drop_last().take(i) =~= s.take(i));
        lemma_trim_end_take(s.drop_last(), i);
    } else {
        assert(s.take(i) =~= s);
    }
}

/// The characters `s[lo..hi]` copied out.
pub fn copy_range(s: &[char], lo: usize, hi: usize) -> (r: Vec<char>)
    requires
        lo <= hi <= s@.len(),
    ensures
        r@ == s@.subrange(lo as int, hi as int),
{
    let mut r: Vec<char> = Vec::new();
    let mut i: usize = lo;
    while i < hi
        invariant
            lo <= i <= hi <= s@.len(),
            r@ == s@.subrange(lo as int, i as int),
        decreases hi - i,
    {
        r.push(s[i]);
        i = i + 1;
        assert(r@ =~= s@.subrange(lo as int, i as int));
    }
    r
}

/// Index of the first non-whitespace character (or the length).
pub fn trim_start_index(s: &[char]) -> (i: usize)
    ensures
        i <= s@.len(),
        trim_start(s@) == s@.skip(i as int),
        forall|j: int| 0 <= j < i ==> is_ws(s@[j]),
{
    let mut i: usize = 0;
    while i < s.len() && is_whitespace(s[i])
        invariant
            i <= s@.len(),
            forall|j: int| 0 <= j < i ==> is_ws(s@[j]),
        decreases s@.len() - i,
    {
        i = i + 1;
    }
    proof {
        lemma_trim_start_skip(s@, i as int);
    }
    i
}

/// Index just past the last non-whitespace character at or after `lo`.
pub fn trim_end_index(s: &[char], lo: usize) -> (j: usize)
    requires
        lo <= s@.len(),
    ensures
        lo <= j <= s@.len(),
        trim_end(s@.skip(lo as int)) == s@.subrange(lo as int, j as int),
{
    let mut j: usize = s.len();
    while j > lo && is_whitespace(s[j - 1])
        invariant
            lo <= j <= s@.len(),
            forall|k: int| j <= k < s@.len() ==> is_ws(s@[k]),
        decreases j,
    {
        j = j - 1;
    }
    proof {
        let t = s@.skip(lo as int);
        assert forall|k: int| j - lo <= k < t.len() implies is_ws(t[k]) by {
            assert(t[k] == s@[k + lo]);
        }
        lemma_trim_end_take(t, j - lo);
        assert(t.take(j - lo) =~= s@.subrange(lo as int, j as int));
        if j > lo {
            assert(!is_ws(t.take(j - lo).last()));
        }
    }
    j
}

pub fn trim_chars(s: &[char]) -> (r: Vec<char>)
    ensures
        r@ == trim(s@),
{
    let i = trim_start_index(s);
    let j = trim_end_index(s, i);
    copy_range(s, i, j)
}

pub fn trim_start_chars(s: &[char]) -> (r: Vec<char>)
    ensures
        r@ == trim_start(s@),
{
    let i = trim_start_index(s);
    let r = copy_range(s, i, s.len());
    assert(r@ =~= s@.skip(i as int));
    r
}

} // verus!
verus! {

/// The views of a vector of character vectors.
pub open spec fn views(v: Seq<Vec<char>>) -> Seq<Seq<char>> {
    v.map_values(|w: Vec<char>| w@)
}

/// One character of the whitespace-splitting scan: finished words and the
/// word being read.
pub open spec fn ws_step(st: (Seq<Seq<char>>, Seq<char>), c: char) -> (Seq<Seq<char>>, Seq<char>) {
    if is_ws(c) {
        if st.1.len() > 0 {
            (st.0.push(st.1), Seq::empty())
        } else {
            (st.0, Seq::empty())
        }
    } else {
        (st.0, st.1.push(c))
    }
}

pub open spec fn ws_state(s: Seq<char>) -> (Seq<Seq<char>>, Seq<char>)
    decreases s.len(),
{
    if s.len() == 0 {
        (Seq::empty(), Seq::empty())
    } else {
        ws_step(ws_state(s.drop_last()), s.last())
    }
}

/// The maximal runs of non-whitespace characters, in order, as
/// `str::split_whitespace`.
pub open spec fn words(s: Seq<char>) -> Seq<Seq<char>> {
    let st = ws_state(s);
    if st.1.len() > 0 {
        st.0.push(st.1)
    } else {
        st.0
    }
}

pub fn split_whitespace(s: &[char]) -> (r: Vec<Vec<char>>)
    ensures
        views(r@) == words(s@),
{
    let mut done: Vec<Vec<char>> = Vec::new();
    let mut cur: Vec<char> = Vec::new();
    let mut i: usize = 0;
    while i < s.len()
        invariant
            i <= s@.len(),
            (views(done@), cur@) == ws_state(s@.take(i as int)),
        decreases s@.len() - i,
    {
        let c = s[i];
        let ghost prev = (views(done@), cur@);
        if is_whitespace(c) {
            if cur.len() > 0 {
                done.push(cur);
                cur = Vec::new();
            }
        } else {
            cur.push(c);
        }
        i = i + 1;
        proof {
            assert(s@.take(i as int).drop_last() =~= s@.take(i - 1));
            assert(views(done@) =~= ws_step(prev, c).0);
            assert(cur@ =~= ws_step(prev, c).1);
        }
    }
    assert(s@.take(s@.len() as int) =~= s@);
    if cur.len() > 0 {
        let ghost before = views(done@);
        done.push(cur);
        assert(views(done@) =~= before.push(cur@));
    }
    done
}

/// The pieces joined with `sep` between them, as `[T]::join`.
pub open spec fn join(ws: Seq<Seq<char>>, sep: Seq<char>) -> Seq<char>
    decreases ws.len(),
{
    if ws.len() == 0 {
        Seq::empty()
    } else if ws.len() == 1 {
        ws[0]
    } else {
        join(ws.drop_last(), sep) + sep + ws.last()
    }
}

pub fn join_chars(ws: &Vec<Vec<char>>, sep: &[char]) -> (r: Vec<char>)
    ensures
        r@ == join(views(ws@), sep@),
{
    let mut r: Vec<char> = Vec::new();
    let mut i: usize = 0;
    while i < ws.len()
        invariant
            i <= ws@.len(),
            r@ == join(views(ws@).take(i as int), sep@),
        decreases ws@.len() - i,
    {
        let ghost before = r@;
        if i > 0 {
            append_chars(&mut r, sep);
        }
        append_chars(&mut r, ws[i].as_slice());
        i = i + 1;
        proof {
            let t = views(ws@).take(i as int);
            assert(t.drop_last() =~= views(ws@).take(i - 1));
            assert(t.last() == ws@[i - 1]@);
            if i == 1 {
                assert(r@ =~= t[0]);
            } else {
                assert(r@ =~= before + sep@ + t.last());
            }
        }
    }
    assert(views(ws@).take(ws@.len() as int) =~= views(ws@));
    r
}

/// Appends `s` to the end of `r`.
pub fn append_chars(r: &mut Vec<char>, s: &[char])
    ensures
        final(r)@ == old(r)@ + s@,
{
    let mut i: usize = 0;
    while i < s.len()
        invariant
            i <= s@.len(),
            r@ == old(r)@ + s@.take(i as int),
        decreases s@.len() - i,
    {
        r.push(s[i]);
        i = i + 1;
        assert(r@ =~= old(r)@ + s@.take(i as int));
    }
    assert(s@.take(s@.len() as int) =~= s@);
}

/// Whitespace runs collapsed to single spaces and both ends trimmed.
pub open spec fn collapse_ws(s: Seq<char>) -> Seq<char> {
    join(words(s), seq![' '])
}

pub fn collapse_whitespace(s: &[char]) -> (r: Vec<char>)
    ensures
        r@ == collapse_ws(s@),
{
    let ws = split_whitespace(s);
    let sp: [char; 1] = [' '];
    let r = join_chars(&ws, sp.as_slice());
    assert(sp@ =~= seq![' ']);
    r
}

/// One character of the line-splitting scan: finished lines (each ended by
/// `'\n'`) and the line being read.
pub open spec fn line_step(st: (Seq<Seq<char>>, Seq<char>), c: char) -> (Seq<Seq<char>>, Seq<char>) {
    if c == '\n' {
        (st.0.push(st.1), Seq::empty())
    } else {
        (st.0, st.1.push(c))
    }
}

pub open spec fn line_state(s: Seq<char>) -> (Seq<Seq<char>>, Seq<char>)
    decreases s.len(),
{
    if s.len() == 0 {
        (Seq::empty(), Seq::empty())
    } else {
        line_step(line_state(s.drop_last()), s.last())
    }
}

/// A line that was ended by `'\n'` loses one trailing `'\r'`.
pub open spec fn strip_cr(l: Seq<char>) -> Seq<char> {
    if l.len() > 0 && l.last() == '\r' {
        l.drop_last()
    } else {
        l
    }
}

/// The lines of a text, as `str::lines`: split at `'\n'` or `"\r\n"`; a
/// final line ending does not start an empty line.
pub open spec fn lines(s: Seq<char>) -> Seq<Seq<char>> {
    let st = line_state(s);
    let ended = st.0.map_values(|l: Seq<char>| strip_cr(l));
    if st.1.len() > 0 {
        ended.push(st.1)
    } else {
        ended
    }
}

pub fn split_lines(s: &[char]) -> (r: Vec<Vec<char>>)
    ensures
        views(r@) == lines(s@),
{
    let mut done: Vec<Vec<char>> = Vec::new();
    let mut cur: Vec<char> = Vec::new();
    let mut i: usize = 0;
    while i < s.len()
        invariant
            i <= s@.len(),
            views(done@) == line_state(s@.take(i as int)).0.map_values(|l: Seq<char>| strip_cr(l)),
            cur@ == line_state(s@.take(i as int)).1,
        decreases s@.len() - i,
    {
        let c = s[i];
        let ghost prev = line_state(s@.take(i as int));
        let ghost prev_done = views(done@);
        if c == '\n' {
            let n = cur.len();
            if n > 0 && cur[n - 1] == '\r' {
                cur.pop();
            }
            assert(cur@ == strip_cr(prev.1));
            done.push(cur);
            cur = Vec::new();
            proof {
                assert(views(done@) =~= prev_done.push(strip_cr(prev.1)));
            }
        } else {
            cur.push(c);
        }
        i = i + 1;
        proof {
            assert(s@.take(i as int).drop_last() =~= s@.take(i - 1));
            assert(line_state(s@.take(i as int)) == line_step(prev, c));
            assert(views(done@) =~= line_state(s@.take(i as int)).0.map_values(
                |l: Seq<char>| strip_cr(l),
            ));
        }
    }
    assert(s@.take(s@.len() as int) =~= s@);
    if cur.len() > 0 {
        let ghost before = views(done@);
        done.push(cur);
        assert(views(done@) =~= before.push(cur@));
    }
    done
}

/// Character-wise equality.
pub fn chars_equal(a: &[char], b: &[char]) -> (r: bool)
    ensures
        r == (a@ == b@),
{
    if a.len() != b.len() {
        return false;
    }
    let mut i: usize = 0;
    while i < a.len()
        invariant
            i <= a@.len(),
            a@.len() == b@.len(),
            forall|j: int| 0 <= j < i ==> a@[j] == b@[j],
        decreases a@.len() - i,
    {
        if a[i] != b[i] {
            return false;
        }
        i = i + 1;
    }
    assert(a@ =~= b@);
    true
}

} // verus!
verus! {

pub open spec fn digit_char(d: nat) -> char {
    (('0' as u32) + d) as char
}

/// The decimal digits of a number.
pub open spec fn decimal(n: nat) -> Seq<char>
    decreases n,
{
    if n < 10 {
        seq![digit_char(n)]
    } else {
        decimal(n / 10).push(digit_char(n % 10))
    }
}

pub fn decimal_chars(n: u64) -> (r: Vec<char>)
    ensures
        r@ == decimal(n as nat),
    decreases n,
{
    let d: u32 = (n % 10) as u32;
    let c: char = ((48u32 + d) as u8) as char;
    assert(c == digit_char((n % 10) as nat));
    if n < 10 {
        let mut r: Vec<char> = Vec::new();
        r.push(c);
        assert(r@ =~= seq![c]);
        r
    } else {
        let mut r = decimal_chars(n / 10);
        r.push(c);
        r
    }
}

} // verus!
verus! {

/// Lexicographic order on character sequences by code point, which is the
/// order of `str`'s `Ord` (UTF-8 preserves code point order byte-wise).
pub open spec fn seq_le(a: Seq<char>, b: Seq<char>) -> bool
    decreases a.len(),
{
    if a.len() == 0 {
        true
    } else if b.len() == 0 {
        false
    } else if a[0] != b[0] {
        (a[0] as int) < (b[0] as int)
    } else {
        seq_le(a.drop_first(), b.drop_first())
    }
}

pub open spec fn seq_lt(a: Seq<char>, b: Seq<char>) -> bool {
    seq_le(a, b) && a != b
}

pub proof fn lemma_seq_le_total(a: Seq<char>, b: Seq<char>)
    ensures
        seq_le(a, b) || seq_le(b, a),
    decreases a.len(),
{
    if a.len() > 0 && b.len() > 0 {
        if a[0] == b[0] {
            lemma_seq_le_total(a.drop_first(), b.drop_first());
        } else {
            assert(a[0] as int != b[0] as int);
        }
    }
}

pub proof fn lemma_seq_le_antisym(a: Seq<char>, b: Seq<char>)
    requires
        seq_le(a, b),
        seq_le(b, a),
    ensures
        a == b,
    decreases a.len(),
{
    if a.len() > 0 && b.len() > 0 {
        if a[0] == b[0] {
            lemma_seq_le_antisym(a.drop_first(), b.drop_first());
            assert(a =~= seq![a[0]] + a.drop_first());
            assert(b =~= seq![b[0]] + b.drop_first());
        } else {
            assert(a[0] as int != b[0] as int);
        }
    } else {
        assert(a =~= b);
    }
}

pub proof fn lemma_seq_le_trans(a: Seq<char>, b: Seq<char>, c: Seq<char>)
    requires
        seq_le(a, b),
        seq_le(b, c),
    ensures
        seq_le(a, c),
    decreases a.len(),
{
    if a.len() > 0 && b.len() > 0 && c.len() > 0 {
        if a[0] == b[0] && b[0] == c[0] {
            lemma_seq_le_trans(a.drop_first(), b.drop_first(), c.drop_first());
        }
    }
}

pub proof fn lemma_seq_le_refl(a: Seq<char>)
    ensures
        seq_le(a, a),
    decreases a.len(),
{
    if a.len() > 0 {
        lemma_seq_le_refl(a.drop_first());
    }
}

/// `a <= b` in code point order.
pub fn chars_le(a: &[char], b: &[char]) -> (r: bool)
    ensures
        r == seq_le(a@, b@),
{
    let mut i: usize = 0;
    assert(a@.skip(0) =~= a@);
    assert(b@.skip(0) =~= b@);
    while i < a.len() && i < b.len() && a[i] == b[i]
        invariant
            i <= a@.len(),
            i <= b@.len(),
            seq_le(a@, b@) == seq_le(a@.skip(i as int), b@.skip(i as int)),
        decreases a@.len() - i,
    {
        proof {
            let x = a@.skip(i as int);
            let y = b@.skip(i as int);
            assert(x.drop_first() =~= a@.skip(i + 1));
            assert(y.drop_first() =~= b@.skip(i + 1));
        }
        i = i + 1;
    }
    if i == a.len() {
        true
    } else if i == b.len() {
        false
    } else {
        a[i] < b[i]
    }
}

/// `a <= b` for strings in code point order.
pub fn str_le(a: &str, b: &str) -> (r: bool)
    ensures
        r == seq_le(a@, b@),
{
    let x = chars_of(a);
    let y = chars_of(b);
    chars_le(x.as_slice(), y.as_slice())
}

/// A copy of a vector of strings.
pub fn strings_clone(v: &Vec<String>) -> (r: Vec<String>)
    ensures
        r@ == v@,
{
    let mut r: Vec<String> = Vec::new();
    let mut i: usize = 0;
    while i < v.len()
        invariant
            i <= v@.len(),
            r@ == v@.take(i as int),
        decreases v@.len() - i,
    {
        r.push(v[i].clone());
        i = i + 1;
        assert(r@ =~= v@.take(i as int));
    }
    assert(v@.take(v@.len() as int) =~= v@);
    r
}

pub fn clone_opt_string(o: &Option<String>) -> (r: Option<String>)
    ensures
        r == *o,
{
    match o {
        Some(s) => Some(s.clone()),
        None => None,
    }
}

} // verus!
verus! {

/// String equality by characters.
pub fn str_eq(a: &str, b: &str) -> (r: bool)
    ensures
        r == (a@ == b@),
{
    let x = chars_of(a);
    let y = chars_of(b);
    chars_equal(x.as_slice(), y.as_slice())
}

} // verus!
verus! {

pub proof fn lemma_seq_lt_trans(a: Seq<char>, b: Seq<char>, c: Seq<char>)
    requires
        seq_lt(a, b),
        seq_lt(b, c),
    ensures
        seq_lt(a, c),
{
    lemma_seq_le_trans(a, b, c);
    if a == c {
        lemma_seq_le_antisym(b, c);
    }
}

/// Not `b <= a` means `a < b`.
pub proof fn lemma_seq_not_le(a: Seq<char>, b: Seq<char>)
    requires
        !seq_le(b, a),
    ensures
        seq_lt(a, b),
{
    lemma_seq_le_total(a, b);
    if a == b {
        lemma_seq_le_refl(a);
    }
}

} // verus!
verus! {

/// What trimming the start leaves is a suffix that is empty or begins with
/// a non-whitespace character.
pub proof fn lemma_trim_start_shape(s: Seq<char>)
    ensures
        trim_start(s).len() <= s.len(),
        trim_start(s) == s.skip(s.len() - trim_start(s).len()),
        trim_start(s).len() > 0 ==> !is_ws(trim_start(s)[0]),
    decreases s.len(),
{
    if s.len() > 0 && is_ws(s[0]) {
        lemma_trim_start_shape(s.drop_first());
        assert(s.drop_first().skip(s.drop_first().len() - trim_start(s).len()) =~= s.skip(
            s.len() - trim_start(s).len(),
        ));
    } else {
        assert(s.skip(0) =~= s);
    }
}

/// What trimming the end leaves is a prefix that is empty or ends with a
/// non-whitespace character, and it keeps every non-whitespace character.
pub proof fn lemma_trim_end_shape(s: Seq<char>)
    ensures
        trim_end(s).len() <= s.len(),
        trim_end(s) == s.take(trim_end(s).len() as int),
        trim_end(s).len() > 0 ==> !is_ws(trim_end(s).last()),
        forall|j: int| 0 <= j < s.len() && !is_ws(#[trigger] s[j]) ==> j < trim_end(s).len(),
    decreases s.len(),
{
    if s.len() > 0 && is_ws(s.last()) {
        lemma_trim_end_shape(s.drop_last());
        assert(s.drop_last().take(trim_end(s).len() as int) =~= s.take(trim_end(s).len() as int));
        assert forall|j: int| 0 <= j < s.len() && !is_ws(#[trigger] s[j]) implies j < trim_end(s).len() by {
            assert(j != s.len() - 1);
            assert(s.drop_last()[j] == s[j]);
        }
    } else {
        assert(s.take(s.len() as int) =~= s);
    }
}

/// Trimming twice trims once.
pub proof fn lemma_trim_idempotent(s: Seq<char>)
    ensures
        trim(trim(s)) == trim(s),
{
    let t = trim_start(s);
    let u = trim(s);
    lemma_trim_start_shape(s);
    lemma_trim_end_shape(t);
    if u.len() > 0 {
        assert(u[0] == t[0]);
        assert(trim_start(u) == u);
        assert(trim_end(u) == u);
    } else {
        assert(trim_start(u) == u);
        assert(trim_end(u) == u);
    }
}

/// A text that neither begins nor ends with whitespace is its own trim.
pub proof fn lemma_trim_noop(s: Seq<char>)
    requires
        s.len() > 0,
        !is_ws(s[0]),
        !is_ws(s.last()),
    ensures
        trim(s) == s,
{
    assert(trim_start(s) == s);
    assert(trim_end(s) == s);
}

} // verus!
verus! {

/// Neither a word nor the word being read holds whitespace, and finished
/// words are not empty.
pub proof fn lemma_ws_state_clean(s: Seq<char>)
    ensures
        forall|i: int| 0 <= i < ws_state(s).0.len() ==> (#[trigger] ws_state(s).0[i]).len() > 0,
        forall|i: int, j: int|
            0 <= i < ws_state(s).0.len() && 0 <= j < ws_state(s).0[i].len() ==> !is_ws(
                #[trigger] ws_state(s).0[i][j],
            ),
        forall|j: int| 0 <= j < ws_state(s).1.len() ==> !is_ws(#[trigger] ws_state(s).1[j]),
    decreases s.len(),
{
    if s.len() > 0 {
        lemma_ws_state_clean(s.drop_last());
        let st = ws_state(s.drop_last());
        let c = s.last();
        if !is_ws(c) {
            assert forall|j: int| 0 <= j < ws_state(s).1.len() implies !is_ws(#[trigger] ws_state(s).1[j]) by {
                if j < st.1.len() {
                    assert(ws_state(s).1[j] == st.1[j]);
                }
            }
        }
    }
}

/// Every word is non-empty and free of whitespace.
pub proof fn lemma_words_clean(s: Seq<char>)
    ensures
        forall|i: int| 0 <= i < words(s).len() ==> (#[trigger] words(s)[i]).len() > 0,
        forall|i: int, j: int|
            0 <= i < words(s).len() && 0 <= j < words(s)[i].len() ==> !is_ws(#[trigger] words(s)[i][j]),
{
    lemma_ws_state_clean(s);
}

/// Reading a word with no whitespace extends the word being read.
proof fn lemma_ws_state_word(s: Seq<char>, w: Seq<char>)
    requires
        forall|j: int| 0 <= j < w.len() ==> !is_ws(#[trigger] w[j]),
    ensures
        ws_state(s + w) == (ws_state(s).0, ws_state(s).1 + w),
    decreases w.len(),
{
    if w.len() == 0 {
        assert(s + w =~= s);
        assert(ws_state(s).1 + w =~= ws_state(s).1);
    } else {
        let p = w.drop_last();
        lemma_ws_state_word(s, p);
        assert((s + w).drop_last() =~= s + p);
        assert((s + w).last() == w.last());
        assert(ws_state(s).1 + p + seq![w.last()] =~= ws_state(s).1 + w);
        assert(ws_state(s + p).1.push(w.last()) =~= ws_state(s).1 + p + seq![w.last()]);
    }
}

/// Words joined by single spaces split back into the same words.
pub proof fn lemma_words_of_join(ws: Seq<Seq<char>>)
    requires
        forall|i: int| 0 <= i < ws.len() ==> (#[trigger] ws[i]).len() > 0,
        forall|i: int, j: int| 0 <= i < ws.len() && 0 <= j < ws[i].len() ==> !is_ws(#[trigger] ws[i][j]),
    ensures
        words(join(ws, seq![' '])) == ws,
    decreases ws.len(),
{
    if ws.len() > 0 {
        lemma_join_state(ws);
        assert(ws.drop_last().push(ws.last()) =~= ws);
    }
}

proof fn lemma_join_state(ws: Seq<Seq<char>>)
    requires
        ws.len() > 0,
        forall|i: int| 0 <= i < ws.len() ==> (#[trigger] ws[i]).len() > 0,
        forall|i: int, j: int| 0 <= i < ws.len() && 0 <= j < ws[i].len() ==> !is_ws(#[trigger] ws[i][j]),
    ensures
        ws_state(join(ws, seq![' '])) == (ws.drop_last(), ws.last()),
    decreases ws.len(),
{
    let w = ws.last();
    assert forall|j: int| 0 <= j < w.len() implies !is_ws(#[trigger] w[j]) by {
        assert(ws[ws.len() - 1][j] == w[j]);
    }
    if ws.len() == 1 {
        let e = Seq::<char>::empty();
        lemma_ws_state_word(e, w);
        assert(e + w =~= w);
        assert(ws_state(e).1 + w =~= w);
        assert(ws.drop_last() =~= Seq::<Seq<char>>::empty());
    } else {
        let p = ws.drop_last();
        assert forall|i: int| 0 <= i < p.len() implies (#[trigger] p[i]).len() > 0 by {
            assert(p[i] == ws[i]);
        }
        assert forall|i: int, j: int| 0 <= i < p.len() && 0 <= j < p[i].len() implies !is_ws(#[trigger] p[i][j]) by {
            assert(p[i] == ws[i]);
        }
        lemma_join_state(p);
        let jp = join(p, seq![' ']);
        let js = jp + seq![' '];
        assert(js.drop_last() =~= jp);
        assert(js.last() == ' ');
        assert(is_ws(' '));
        assert(p.last() == ws[ws.len() - 2]);
        assert(p.drop_last().push(p.last()) =~= p);
        assert(ws_state(js) == (p, Seq::<char>::empty()));
        lemma_ws_state_word(js, w);
        assert(Seq::<char>::empty() + w =~= w);
        assert(join(ws, seq![' ']) == js + w);
    }
}

} // verus!
verus! {

/// A leading space splits nothing off.
proof fn lemma_ws_state_leading_space(s: Seq<char>)
    ensures
        ws_state(seq![' '] + s) == ws_state(s),
    decreases s.len(),
{
    assert(is_ws(' '));
    if s.len() == 0 {
        assert(seq![' '] + s =~= seq![' ']);
        assert(seq![' '].drop_last() =~= Seq::<char>::empty());
        assert(ws_state(seq![' ']) == ws_step(ws_state(Seq::<char>::empty()), ' '));
        assert(ws_state(Seq::<char>::empty()) == (Seq::<Seq<char>>::empty(), Seq::<char>::empty()));
    } else {
        lemma_ws_state_leading_space(s.drop_last());
        assert((seq![' '] + s).drop_last() =~= seq![' '] + s.drop_last());
        assert((seq![' '] + s).last() == s.last());
    }
}

/// Whitespace around a text does not change its words.
pub proof fn lemma_words_padded(s: Seq<char>)
    ensures
        words(seq![' '] + s + seq![' ']) == words(s),
{
    lemma_ws_state_leading_space(s);
    let x = seq![' '] + s + seq![' '];
    assert(x.drop_last() =~= seq![' '] + s);
    assert(x.last() == ' ');
}

} // verus!
