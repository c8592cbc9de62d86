use vstd::prelude::*;

verus! {

/// Whether `c` has the Unicode `White_Space` property, as `char::is_whitespace` decides.
pub open spec fn is_space_spec(c: char) -> bool {
    ('\u{9}' <= c && c <= '\u{d}') || c == ' ' || c == '\u{85}' || c == '\u{a0}'
        || c == '\u{1680}' || ('\u{2000}' <= c && c <= '\u{200a}') || c == '\u{2028}'
        || c == '\u{2029}' || c == '\u{202f}' || c == '\u{205f}' || c == '\u{3000}'
}

/// `s` with its leading whitespace removed.
pub open spec fn trim_start(s: Seq<char>) -> Seq<char>
    decreases s.len(),
{
    if s.len() > 0 && is_space_spec(s[0]) {
        trim_start(s.skip(1))
    } else {
        s
    }
}

/// `s` with its trailing whitespace removed.
pub open spec fn trim_end(s: Seq<char>) -> Seq<char>
    decreases s.len(),
{
    if s.len() > 0 && is_space_spec(s.last()) {
        trim_end(s.drop_last())
    } else {
        s
    }
}

/// `s` with whitespace removed at both ends.
pub open spec fn trim(s: Seq<char>) -> Seq<char> {
    trim_end(trim_start(s))
}

/// Whether `s` holds nothing but whitespace.
pub open spec fn is_blank(s: Seq<char>) -> bool {
    trim_start(s).len() == 0
}

/// Whether `p` occurs in `s` at position `i`.
pub open spec fn occurs_at(s: Seq<char>, p: Seq<char>, i: int) -> bool {
    0 <= i && i + p.len() <= s.len() && s.subrange(i, i + p.len()) == p
}

/// Whether `p` occurs anywhere in `s`.
pub open spec fn contains(s: Seq<char>, p: Seq<char>) -> bool {
    exists|i: int| occurs_at(s, p, i)
}

/// Every occurrence of `p` or `q` in `s`, found in one pass from left to right without
/// overlap (`p` first where both start at the same place), replaced by `pr` or `qr`; the
/// replacement texts are not searched again.
pub open spec fn replace_two(s: Seq<char>, p: Seq<char>, pr: Seq<char>, q: Seq<char>, qr: Seq<char>) -> Seq<char>
    decreases s.len(),
{
    if p.len() == 0 || q.len() == 0 || s.len() == 0 {
        s
    } else if occurs_at(s, p, 0) {
        pr + replace_two(s.skip(p.len() as int), p, pr, q, qr)
    } else if occurs_at(s, q, 0) {
        qr + replace_two(s.skip(q.len() as int), p, pr, q, qr)
    } else {
        seq![s[0]] + replace_two(s.skip(1), p, pr, q, qr)
    }
}


/// The number of newline characters in `s`.
pub open spec fn newlines(s: Seq<char>) -> nat
    decreases s.len(),
{
    if s.len() == 0 {
        0
    } else {
        newlines(s.drop_last()) + if s.last() == '\n' { 1nat } else { 0nat }
    }
}

/// The newline count of a concatenation is the sum of the counts of its parts.
pub proof fn lemma_newlines_concat(a: Seq<char>, b: Seq<char>)
    ensures
        newlines(a + b) == newlines(a) + newlines(b),
    decreases b.len(),
{
    if b.len() == 0 {
        assert(a + b =~= a);
    } else {
        assert((a + b).drop_last() =~= a + b.drop_last());
        lemma_newlines_concat(a, b.drop_last());
    }
}

proof fn lemma_trim_end_nonempty(s: Seq<char>)
    requires
        s.len() > 0,
        !is_space_spec(s[0]),
    ensures
        trim_end(s).len() > 0,
    decreases s.len(),
{
    if s.len() > 1 && is_space_spec(s.last()) {
        lemma_trim_end_nonempty(s.drop_last());
    }
}

/// A text trims to nothing exactly when it is blank.
pub proof fn lemma_trim_blank(s: Seq<char>)
    ensures
        trim(s).len() == 0 <==> is_blank(s),
{
    let t = trim_start(s);
    if t.len() > 0 {
        lemma_trim_start_first(s);
        lemma_trim_end_nonempty(t);
    }
}

proof fn lemma_trim_start_first(s: Seq<char>)
    ensures
        trim_start(s).len() > 0 ==> !is_space_spec(trim_start(s)[0]),
    decreases s.len(),
{
    if s.len() > 0 && is_space_spec(s[0]) {
        lemma_trim_start_first(s.skip(1));
    }
}

/// A sequence holds no more newlines than characters.
pub proof fn lemma_newlines_bound(s: Seq<char>)
    ensures
        newlines(s) <= s.len(),
    decreases s.len(),
{
    if s.len() > 0 {
        lemma_newlines_bound(s.drop_last());
    }
}

/// Whether no character of `a` occurs in `b`.
pub open spec fn disjoint(a: Seq<char>, b: Seq<char>) -> bool {
    forall|i: int, j: int| 0 <= i < a.len() && 0 <= j < b.len() ==> a[i] != b[j]
}

/// Whether `c` is a character of `q`.
pub open spec fn has_char(q: Seq<char>, c: char) -> bool {
    exists|j: int| 0 <= j < q.len() && q[j] == c
}

/// A prefix of the replaced text that holds only characters of `w`, which the replacement
/// texts do not hold, is the same prefix of the text before replacement.
proof fn lemma_prefix_kept(
    t: Seq<char>,
    p: Seq<char>,
    pr: Seq<char>,
    q: Seq<char>,
    qr: Seq<char>,
    w: Seq<char>,
    m: int,
)
    requires
        p.len() > 0,
        q.len() > 0,
        pr.len() > 0,
        qr.len() > 0,
        disjoint(pr, w),
        disjoint(qr, w),
        0 <= m <= replace_two(t, p, pr, q, qr).len(),
        forall|i: int| 0 <= i < m ==> has_char(w, #[trigger] replace_two(t, p, pr, q, qr)[i]),
    ensures
        m <= t.len(),
        replace_two(t, p, pr, q, qr).subrange(0, m) == t.subrange(0, m),
    decreases t.len(),
{
    let big = replace_two(t, p, pr, q, qr);
    if m == 0 {
        assert(big.subrange(0, 0) =~= t.subrange(0, 0));
    } else if occurs_at(t, p, 0) {
        assert(big[0] == pr[0]);
        assert(has_char(w, big[0]));
    } else if occurs_at(t, q, 0) {
        assert(big[0] == qr[0]);
        assert(has_char(w, big[0]));
    } else {
        let t1 = t.skip(1);
        let small = replace_two(t1, p, pr, q, qr);
        assert(big == seq![t[0]] + small);
        assert forall|i: int| 0 <= i < m - 1 implies has_char(w, #[trigger] small[i]) by {
            assert(small[i] == big[i + 1]);
        }
        lemma_prefix_kept(t1, p, pr, q, qr, w, m - 1);
        assert(big.subrange(0, m) =~= seq![t[0]] + small.subrange(0, m - 1));
        assert(t.subrange(0, m) =~= seq![t[0]] + t1.subrange(0, m - 1));
    }
}

/// Where both markers are replaced by non-empty texts that share no character with the
/// marker `w`, no occurrence of `w` is left.
pub proof fn lemma_no_marker(
    s: Seq<char>,
    p: Seq<char>,
    pr: Seq<char>,
    q: Seq<char>,
    qr: Seq<char>,
    w: Seq<char>,
)
    requires
        p.len() > 0,
        q.len() > 0,
        pr.len() > 0,
        qr.len() > 0,
        disjoint(pr, w),
        disjoint(qr, w),
        w == p || w == q,
    ensures
        !contains(replace_two(s, p, pr, q, qr), w),
    decreases s.len(),
{
    let big = replace_two(s, p, pr, q, qr);
    if s.len() == 0 {
        assert forall|k: int| !occurs_at(big, w, k) by {}
    } else {
        assert forall|k: int| !occurs_at(big, w, k) by {
            if occurs_at(big, w, k) {
                assert(big.subrange(k, k + w.len())[0] == w[0]);
                if occurs_at(s, p, 0) || occurs_at(s, q, 0) {
                    let (m, r) = if occurs_at(s, p, 0) { (p, pr) } else { (q, qr) };
                    let s1 = s.skip(m.len() as int);
                    let small = replace_two(s1, p, pr, q, qr);
                    assert(big == r + small);
                    lemma_no_marker(s1, p, pr, q, qr, w);
                    if k < r.len() {
                        assert(big[k] == r[k]);
                    } else {
                        assert(big.subrange(k, k + w.len()) =~= small.subrange(
                            k - r.len(),
                            k - r.len() + w.len(),
                        ));
                        assert(occurs_at(small, w, k - r.len()));
                    }
                } else {
                    let s1 = s.skip(1);
                    let small = replace_two(s1, p, pr, q, qr);
                    assert(big == seq![s[0]] + small);
                    lemma_no_marker(s1, p, pr, q, qr, w);
                    if k >= 1 {
                        assert(big.subrange(k, k + w.len()) =~= small.subrange(
                            k - 1,
                            k - 1 + w.len(),
                        ));
                        assert(occurs_at(small, w, k - 1));
                    } else {
                        let m = w.len() - 1;
                        assert forall|i: int| 0 <= i < m implies has_char(w, #[trigger] small[i]) by {
                            assert(small[i] == big[i + 1]);
                            assert(big[i + 1] == big.subrange(0, w.len() as int)[i + 1]);
                            assert(small[i] == w[i + 1]);
                        }
                        lemma_prefix_kept(s1, p, pr, q, qr, w, m);
                        assert(s.subrange(0, w.len() as int) =~= seq![s[0]] + s1.subrange(0, m));
                        assert(big.subrange(0, w.len() as int) =~= seq![s[0]] + small.subrange(0, m));
                        assert(occurs_at(s, w, 0));
                    }
                }
            }
        }
    }
}


/// The characters of `s` in order.
pub(crate) fn chars_of(s: &str) -> (r: Vec<char>)
    ensures
        r@ == s@,
{
    broadcast use vstd::string::group_string_axioms;

    let mut r: Vec<char> = Vec::new();
    for c in it: s.chars()
        invariant
            r@.len() == it.index@,
            it.seq() == s@,
            forall|i: int| 0 <= i < r@.len() ==> r@[i] == it.seq()[i],
    {
        r.push(c);
    }
    assert(r@ =~= s@);
    r
}

/// Relies on `String`'s `FromIterator<&char>`: a string of the characters of `v` in order.
#[verifier::external_body]
pub(crate) fn text_of(v: &[char]) -> (r: String)
    ensures
        r@ == v@,
{
    v.iter().collect()
}

/// Whether `c` is whitespace, as `char::is_whitespace` decides.
pub fn is_space(c: char) -> (r: bool)
    ensures
        r == is_space_spec(c),
{
    ('\u{9}' <= c && c <= '\u{d}') || c == ' ' || c == '\u{85}' || c == '\u{a0}'
        || c == '\u{1680}' || ('\u{2000}' <= c && c <= '\u{200a}') || c == '\u{2028}'
        || c == '\u{2029}' || c == '\u{202f}' || c == '\u{205f}' || c == '\u{3000}'
}

/// Appends `s[from..to]` to `out`.
pub(crate) fn push_range(out: &mut Vec<char>, s: &Vec<char>, from: usize, to: usize)
    requires
        from <= to <= s@.len(),
    ensures
        final(out)@ == old(out)@ + s@.subrange(from as int, to as int),
{
    let mut i = from;
    while i < to
        invariant
            from <= i <= to <= s@.len(),
            out@ == old(out)@ + s@.subrange(from as int, i as int),
        decreases to - i,
    {
        out.push(s[i]);
        assert(s@.subrange(from as int, i + 1) =~= s@.subrange(from as int, i as int).push(s@[i as int]));
        i += 1;
    }
}

proof fn lemma_trim_start_skip(s: Seq<char>, i: int)
    requires
        0 <= i < s.len(),
        is_space_spec(s[i]),
    ensures
        trim_start(s.skip(i)) == trim_start(s.skip(i + 1)),
{
    assert(s.skip(i).skip(1) =~= s.skip(i + 1));
}

proof fn lemma_trim_end_take(s: Seq<char>, j: int)
    requires
        0 < j <= s.len(),
        is_space_spec(s[j - 1]),
    ensures
        trim_end(s.take(j)) == trim_end(s.take(j - 1)),
{
    assert(s.take(j).drop_last() =~= s.take(j - 1));
}

/// The characters of `s` with whitespace removed at both ends.
pub fn trim_chars(s: &Vec<char>) -> (r: Vec<char>)
    ensures
        r@ == trim(s@),
{
    let n = s.len();
    let mut a: usize = 0;
    assert(s@.skip(0) =~= s@);
    while a < n && is_space(s[a])
        invariant
            a <= n == s@.len(),
            trim_start(s@) == trim_start(s@.skip(a as int)),
        decreases n - a,
    {
        proof {
            lemma_trim_start_skip(s@, a as int);
        }
        a += 1;
    }
    let ghost t = s@.skip(a as int);
    assert(trim_start(s@) == t);
    let mut b: usize = n;
    assert(t.take(t.len() as int) =~= t);
    while b > a && is_space(s[b - 1])
        invariant
            a <= b <= n == s@.len(),
            t == s@.skip(a as int),
            trim_end(t) == trim_end(t.take(b - a)),
        decreases b,
    {
        proof {
            lemma_trim_end_take(t, b - a);
        }
        b -= 1;
    }
    let mut r: Vec<char> = Vec::new();
    push_range(&mut r, s, a, b);
    assert(r@ =~= t.take(b - a));
    r
}

/// Whether `p` occurs in `s` at position `i`.
pub fn occurs_at_exec(s: &Vec<char>, p: &Vec<char>, i: usize) -> (r: bool)
    ensures
        r == occurs_at(s@, p@, i as int),
{
    if i > s.len() || p.len() > s.len() - i {
        return false;
    }
    let n = s.len();
    let mut k: usize = 0;
    while k < p.len()
        invariant
            i + p@.len() <= s@.len() == n,
            k <= p@.len(),
            forall|j: int| 0 <= j < k ==> s@[i + j] == p@[j],
        decreases p@.len() - k,
    {
        if s[i + k] != p[k] {
            assert(s@.subrange(i as int, i + p@.len())[k as int] != p@[k as int]);
            return false;
        }
        k += 1;
    }
    assert(s@.subrange(i as int, i + p@.len()) =~= p@);
    true
}

/// Whether `p` occurs anywhere in `s`.
pub fn contains_exec(s: &Vec<char>, p: &Vec<char>) -> (r: bool)
    ensures
        r == contains(s@, p@),
{
    if p.len() > s.len() {
        return false;
    }
    let last = s.len() - p.len();
    let mut i: usize = 0;
    while i <= last
        invariant
            last == s@.len() - p@.len(),
            i <= last,
            forall|j: int| 0 <= j < i ==> !occurs_at(s@, p@, j),
        ensures
            forall|j: int| 0 <= j <= last ==> !occurs_at(s@, p@, j),
        decreases last - i,
    {
        if occurs_at_exec(s, p, i) {
            return true;
        }
        if i == last {
            break;
        }
        i += 1;
    }
    false
}

proof fn lemma_replace_step(s: Seq<char>, p: Seq<char>, pr: Seq<char>, q: Seq<char>, qr: Seq<char>, i: int)
    requires
        p.len() > 0,
        q.len() > 0,
        0 <= i < s.len(),
    ensures
        replace_two(s.skip(i), p, pr, q, qr) == if occurs_at(s, p, i) {
            pr + replace_two(s.skip(i + p.len()), p, pr, q, qr)
        } else if occurs_at(s, q, i) {
            qr + replace_two(s.skip(i + q.len()), p, pr, q, qr)
        } else {
            seq![s[i]] + replace_two(s.skip(i + 1), p, pr, q, qr)
        },
{
    let t = s.skip(i);
    assert(occurs_at(s, p, i) == occurs_at(t, p, 0)) by {
        if i + p.len() <= s.len() {
            assert(t.subrange(0, p.len() as int) =~= s.subrange(i, i + p.len()));
        }
    }
    assert(occurs_at(s, q, i) == occurs_at(t, q, 0)) by {
        if i + q.len() <= s.len() {
            assert(t.subrange(0, q.len() as int) =~= s.subrange(i, i + q.len()));
        }
    }
    if occurs_at(s, p, i) {
        assert(t.skip(p.len() as int) =~= s.skip(i + p.len()));
    }
    if occurs_at(s, q, i) {
        assert(t.skip(q.len() as int) =~= s.skip(i + q.len()));
    }
    assert(t.skip(1) =~= s.skip(i + 1));
}

/// `s` with every occurrence of `p` or `q` replaced by `pr` or `qr` in one pass.
pub fn replace_two_exec(s: &Vec<char>, p: &Vec<char>, pr: &Vec<char>, q: &Vec<char>, qr: &Vec<char>) -> (out: Vec<char>)
    requires
        p@.len() > 0,
        q@.len() > 0,
    ensures
        out@ == replace_two(s@, p@, pr@, q@, qr@),
{
    let n = s.len();
    let mut out: Vec<char> = Vec::new();
    let mut i: usize = 0;
    assert(s@.skip(0) =~= s@);
    while i < n
        invariant
            n == s@.len(),
            p@.len() > 0,
            q@.len() > 0,
            i <= n,
            out@ + replace_two(s@.skip(i as int), p@, pr@, q@, qr@) == replace_two(s@, p@, pr@, q@, qr@),
        decreases n - i,
    {
        proof {
            lemma_replace_step(s@, p@, pr@, q@, qr@, i as int);
        }
        let ghost before = out@;
        if occurs_at_exec(s, p, i) {
            push_range(&mut out, pr, 0, pr.len());
            assert(pr@.subrange(0, pr@.len() as int) =~= pr@);
            assert(out@ + replace_two(s@.skip(i + p@.len()), p@, pr@, q@, qr@) =~= before + (pr@
                + replace_two(s@.skip(i + p@.len()), p@, pr@, q@, qr@)));
            i += p.len();
        } else if occurs_at_exec(s, q, i) {
            push_range(&mut out, qr, 0, qr.len());
            assert(qr@.subrange(0, qr@.len() as int) =~= qr@);
            assert(out@ + replace_two(s@.skip(i + q@.len()), p@, pr@, q@, qr@) =~= before + (qr@
                + replace_two(s@.skip(i + q@.len()), p@, pr@, q@, qr@)));
            i += q.len();
        } else {
            out.push(s[i]);
            assert(out@ + replace_two(s@.skip(i + 1), p@, pr@, q@, qr@) =~= before + (seq![s@[i as int]]
                + replace_two(s@.skip(i + 1), p@, pr@, q@, qr@)));
            i += 1;
        }
    }
    assert(s@.skip(n as int) =~= Seq::<char>::empty());
    assert(out@ + Seq::<char>::empty() =~= out@);
    out
}


/// The number of newline characters in `s`.
pub fn count_newlines(s: &Vec<char>) -> (r: usize)
    ensures
        r == newlines(s@),
{
    let mut k: usize = 0;
    let mut i: usize = 0;
    assert(s@.take(0) =~= Seq::<char>::empty());
    while i < s.len()
        invariant
            i <= s@.len(),
            k == newlines(s@.take(i as int)),
        decreases s@.len() - i,
    {
        assert(s@.take(i + 1).drop_last() =~= s@.take(i as int));
        proof {
            lemma_newlines_bound(s@.take(i + 1));
        }
        if s[i] == '\n' {
            k += 1;
        }
        i += 1;
    }
    assert(s@.take(s@.len() as int) =~= s@);
    k
}

} // verus!
