//! Character-level text operations of the script engine: substring search,
//! placeholder replacement, line splitting and trimming, each specified over
//! `Seq<char>` views.

use vstd::prelude::*;
use vstd::string::*;

verus! {

/// The token `t` occurs in `s` starting at position `i`.
pub open spec fn occurs_at(s: Seq<char>, t: Seq<char>, i: int) -> bool {
    0 <= i && i + t.len() <= s.len() && s.subrange(i, i + t.len()) == t
}

/// The token `t` occurs somewhere in `s`.
pub open spec fn contains_tok(s: Seq<char>, t: Seq<char>) -> bool {
    exists|i: int| occurs_at(s, t, i)
}

/// `s` with every occurrence of `t` replaced by `v`, scanning left to right
/// and never rescanning replaced output (the semantics of `str::replace`).
pub open spec fn replaced(s: Seq<char>, t: Seq<char>, v: Seq<char>) -> Seq<char>
    decreases s.len(),
{
    if t.len() == 0 || s.len() < t.len() {
        s
    } else if s.subrange(0, t.len() as int) == t {
        v + replaced(s.skip(t.len() as int), t, v)
    } else {
        seq![s[0]] + replaced(s.skip(1), t, v)
    }
}

/// Relies on `String::push`: appends one character at the end.
#[verifier::external_body]
pub fn push_char(s: &mut String, c: char)
    ensures
        final(s)@ == old(s)@.push(c),
{
    s.push(c)
}

/// Whether `t` occurs in `s` at character position `i`.
pub fn matches_at(s: &str, t: &str, i: usize) -> (r: bool)
    requires
        i + t@.len() <= s@.len(),
    ensures
        r == occurs_at(s@, t@, i as int),
{
    let s_len = s.unicode_len();
    let t_len = t.unicode_len();
    let mut j: usize = 0;
    while j < t_len
        invariant
            s_len == s@.len(),
            t_len == t@.len(),
            i + t_len <= s_len,
            j <= t_len,
            forall|k: int| 0 <= k < j ==> s@[i + k] == t@[k],
        decreases t_len - j,
    {
        if s.get_char(i + j) != t.get_char(j) {
            proof {
                if occurs_at(s@, t@, i as int) {
                    assert(s@.subrange(i as int, i + t@.len())[j as int] == t@[j as int]);
                }
            }
            return false;
        }
        j += 1;
    }
    proof {
        assert(s@.subrange(i as int, i + t@.len()) =~= t@);
    }
    true
}

/// Replaces every occurrence of the token `t` in `s` with the value `v`.
pub fn replace_all(s: &str, t: &str, v: &str) -> (r: String)
    requires
        t@.len() > 0,
    ensures
        r@ == replaced(s@, t@, v@),
{
    let s_len = s.unicode_len();
    let t_len = t.unicode_len();
    let mut r = String::new();
    let mut i: usize = 0;
    proof {
        assert(s@.skip(0) =~= s@);
    }
    while i < s_len
        invariant
            s_len == s@.len(),
            t_len == t@.len(),
            t_len > 0,
            i <= s_len,
            replaced(s@, t@, v@) == r@ + replaced(s@.skip(i as int), t@, v@),
        decreases s_len - i,
    {
        let ghost rem = s@.skip(i as int);
        if t_len <= s_len - i && matches_at(s, t, i) {
            proof {
                assert(rem.subrange(0, t@.len() as int) =~= s@.subrange(i as int, i + t@.len()));
                assert(rem.skip(t@.len() as int) =~= s@.skip(i + t@.len()));
                assert(replaced(rem, t@, v@) == v@ + replaced(s@.skip(i + t@.len()), t@, v@));
            }
            r.append(v);
            i += t_len;
            proof {
                assert(replaced(s@, t@, v@) == r@ + replaced(s@.skip(i as int), t@, v@));
            }
        } else {
            let c = s.get_char(i);
            proof {
                if rem.len() >= t@.len() && rem.subrange(0, t@.len() as int) == t@ {
                    // the branch above would have been taken
                    assert(rem.subrange(0, t@.len() as int) =~= s@.subrange(
                        i as int,
                        i + t@.len(),
                    ));
                    assert(occurs_at(s@, t@, i as int));
                    assert(false);
                }
                if rem.len() < t@.len() {
                    assert(rem.skip(1) =~= s@.skip(i + 1));
                    assert(replaced(rem, t@, v@) == rem);
                    assert(replaced(rem.skip(1), t@, v@) == rem.skip(1));
                    assert(rem =~= seq![rem[0]] + rem.skip(1));
                } else {
                    assert(replaced(rem, t@, v@) == seq![rem[0]] + replaced(rem.skip(1), t@, v@));
                }
                assert(rem.skip(1) =~= s@.skip(i + 1));
                assert(replaced(rem, t@, v@) == seq![s@[i as int]] + replaced(
                    s@.skip(i + 1),
                    t@,
                    v@,
                ));
            }
            push_char(&mut r, c);
            i += 1;
            proof {
                assert(r@ + replaced(s@.skip(i as int), t@, v@) =~= replaced(s@, t@, v@));
            }
        }
    }
    proof {
        assert(s@.skip(s_len as int) =~= Seq::<char>::empty());
        assert(replaced(s@.skip(s_len as int), t@, v@) == Seq::<char>::empty());
        assert(r@ =~= r@ + Seq::<char>::empty());
    }
    r
}

/// The position of the leftmost occurrence of `t` in `s` (meaningful only
/// when `t` occurs in `s` at all).
pub open spec fn first_occ(s: Seq<char>, t: Seq<char>) -> int
    decreases s.len(),
{
    if occurs_at(s, t, 0) {
        0
    } else if s.len() == 0 {
        0
    } else {
        1 + first_occ(s.skip(1), t)
    }
}

/// Where `t` occurs in `s`, `first_occ` names its leftmost occurrence.
pub proof fn lemma_first_occ(s: Seq<char>, t: Seq<char>)
    requires
        contains_tok(s, t),
    ensures
        occurs_at(s, t, first_occ(s, t)),
        forall|j: int| 0 <= j < first_occ(s, t) ==> !occurs_at(s, t, j),
    decreases s.len(),
{
    if !occurs_at(s, t, 0) {
        let i = choose|i: int| occurs_at(s, t, i);
        assert(i >= 1);
        assert(s.len() >= 1);
        assert(occurs_at(s.skip(1), t, i - 1)) by {
            assert(s.skip(1).subrange(i - 1, i - 1 + t.len()) =~= s.subrange(i, i + t.len()));
        }
        lemma_first_occ(s.skip(1), t);
        let f1 = first_occ(s.skip(1), t);
        assert(occurs_at(s, t, f1 + 1)) by {
            assert(s.subrange(f1 + 1, f1 + 1 + t.len()) =~= s.skip(1).subrange(f1, f1 + t.len()));
        }
        assert forall|j: int| 0 <= j < first_occ(s, t) implies !occurs_at(s, t, j) by {
            if j > 0 && occurs_at(s, t, j) {
                assert(s.skip(1).subrange(j - 1, j - 1 + t.len()) =~= s.subrange(j, j + t.len()));
                assert(occurs_at(s.skip(1), t, j - 1));
            }
        }
    }
}

/// A line that does not contain the token is unchanged by replacement.
pub proof fn lemma_replace_absent(s: Seq<char>, t: Seq<char>, v: Seq<char>)
    requires
        !contains_tok(s, t),
    ensures
        replaced(s, t, v) == s,
    decreases s.len(),
{
    if t.len() == 0 {
        assert(s.subrange(0, 0) =~= t);
        assert(occurs_at(s, t, 0));
    } else if s.len() < t.len() {
    } else if s.subrange(0, t.len() as int) == t {
        assert(occurs_at(s, t, 0));
    } else {
        assert forall|j: int| !occurs_at(s.skip(1), t, j) by {
            if occurs_at(s.skip(1), t, j) {
                assert(s.subrange(j + 1, j + 1 + t.len()) =~= s.skip(1).subrange(j, j + t.len()));
                assert(occurs_at(s, t, j + 1));
            }
        }
        lemma_replace_absent(s.skip(1), t, v);
        assert(seq![s[0]] + s.skip(1) =~= s);
    }
}

/// Replacement decomposed at the leftmost occurrence: everything before it
/// is kept, the occurrence becomes the value, and replacement continues
/// after it.
pub proof fn lemma_replaced_at_first(s: Seq<char>, t: Seq<char>, v: Seq<char>, i: int)
    requires
        t.len() > 0,
        occurs_at(s, t, i),
        forall|j: int| 0 <= j < i ==> !occurs_at(s, t, j),
    ensures
        replaced(s, t, v) == s.take(i) + v + replaced(s.skip(i + t.len()), t, v),
    decreases i,
{
    if i == 0 {
        assert(s.subrange(0, t.len() as int) == t);
        assert(replaced(s, t, v) == v + replaced(s.skip(t.len() as int), t, v));
        assert(s.take(0) + v =~= v);
        assert((s.take(0) + v) + replaced(s.skip(t.len() as int), t, v) =~= v + replaced(
            s.skip(t.len() as int),
            t,
            v,
        ));
    } else {
        assert(!occurs_at(s, t, 0));
        assert(s.len() > t.len());
        if s.subrange(0, t.len() as int) == t {
            assert(occurs_at(s, t, 0));
        }
        assert(replaced(s, t, v) == seq![s[0]] + replaced(s.skip(1), t, v));
        assert(occurs_at(s.skip(1), t, i - 1)) by {
            assert(s.skip(1).subrange(i - 1, i - 1 + t.len()) =~= s.subrange(i, i + t.len()));
        }
        assert forall|j: int| 0 <= j < i - 1 implies !occurs_at(s.skip(1), t, j) by {
            if occurs_at(s.skip(1), t, j) {
                assert(s.subrange(j + 1, j + 1 + t.len()) =~= s.skip(1).subrange(j, j + t.len()));
                assert(occurs_at(s, t, j + 1));
            }
        }
        lemma_replaced_at_first(s.skip(1), t, v, i - 1);
        let tail = replaced(s.skip(1).skip(i - 1 + t.len()), t, v);
        assert(s.skip(1).skip(i - 1 + t.len()) =~= s.skip(i + t.len()));
        assert(seq![s[0]] + ((s.skip(1).take(i - 1) + v) + tail) =~= (s.take(i) + v) + tail) by {
            assert(seq![s[0]] + s.skip(1).take(i - 1) =~= s.take(i));
        }
    }
}

/// Replacing an occurrence of the token introduces the value.
pub proof fn lemma_replace_introduces_value(s: Seq<char>, t: Seq<char>, v: Seq<char>)
    requires
        t.len() > 0,
        contains_tok(s, t),
    ensures
        contains_tok(replaced(s, t, v), v),
{
    lemma_first_occ(s, t);
    let i = first_occ(s, t);
    lemma_replaced_at_first(s, t, v, i);
    let r = replaced(s, t, v);
    assert(occurs_at(r, v, i)) by {
        assert(r.subrange(i, i + v.len()) =~= v);
    }
}

/// A token and a value that cannot interlock: the value does not contain
/// the token; no proper nonempty suffix of the token starts the value, or
/// sits inside it followed by more of the value; and no nonempty suffix of
/// the value starts the token. Under these, replacing the token with the
/// value can never manufacture a fresh occurrence of the token.
pub open spec fn no_overlap(t: Seq<char>, v: Seq<char>) -> bool {
    &&& t.len() > 0
    &&& v.len() > 0
    &&& !contains_tok(v, t)
    &&& (forall|k: int|
        1 <= k < t.len() && t.len() - k <= v.len() ==> t.skip(k) != v.take(t.len() - k))
    &&& (forall|k: int|
        1 <= k < t.len() && t.len() - k > v.len() ==> #[trigger] t.subrange(k, k + v.len()) != v)
    &&& (forall|k: int| 1 <= k <= v.len() && k < t.len() ==> v.skip(v.len() - k) != t.take(k))
}

/// Substitution is complete: when the token and the value cannot interlock,
/// the replaced line contains no occurrence of the token at all.
pub proof fn lemma_replace_no_reintroduction(s: Seq<char>, t: Seq<char>, v: Seq<char>)
    requires
        no_overlap(t, v),
    ensures
        !contains_tok(replaced(s, t, v), t),
    decreases s.len(),
{
    let tl = t.len() as int;
    let vl = v.len() as int;
    if !contains_tok(s, t) {
        lemma_replace_absent(s, t, v);
    } else {
        lemma_first_occ(s, t);
        let i = first_occ(s, t);
        lemma_replaced_at_first(s, t, v, i);
        let rest = s.skip(i + tl);
        lemma_replace_no_reintroduction(rest, t, v);
        let rr = replaced(rest, t, v);
        let r = replaced(s, t, v);
        assert(r == (s.take(i) + v) + rr);
        assert(r.len() == i + vl + rr.len());
        assert(forall|j: int| 0 <= j < i ==> r[j] == s[j]);
        assert(forall|j: int| 0 <= j < vl ==> r[i + j] == v[j]);
        assert(forall|j: int| 0 <= j < rr.len() ==> r[i + vl + j] == rr[j]);
        assert forall|p: int| !occurs_at(r, t, p) by {
            if occurs_at(r, t, p) {
                assert(forall|m: int| 0 <= m < tl ==> t[m] == r[p + m]) by {
                    assert(forall|m: int|
                        0 <= m < tl ==> #[trigger] r.subrange(p, p + tl)[m] == r[p + m]);
                }
                if p + tl <= i {
                    assert(occurs_at(s, t, p)) by {
                        assert(s.subrange(p, p + tl) =~= t);
                    }
                } else if p < i {
                    let k = i - p;
                    assert(1 <= k < tl);
                    if tl - k <= vl {
                        assert(t.skip(k) =~= v.take(tl - k)) by {
                            assert(forall|m: int| 0 <= m < tl - k ==> #[trigger] t.skip(k)[m] == t[k + m]);
                            assert(forall|m: int| 0 <= m < tl - k ==> t[k + m] == #[trigger] r[i + m]);
                        }
                    } else {
                        assert(t.subrange(k, k + vl) =~= v) by {
                            assert(forall|m: int|
                                0 <= m < vl ==> #[trigger] t.subrange(k, k + vl)[m] == t[k + m]);
                            assert(forall|m: int| 0 <= m < vl ==> t[k + m] == #[trigger] r[i + m]);
                        }
                    }
                } else if p < i + vl {
                    let q = p - i;
                    if q + tl <= vl {
                        assert(occurs_at(v, t, q)) by {
                            assert(forall|m: int| 0 <= m < tl ==> t[m] == #[trigger] r[i + (q + m)]);
                            assert(v.subrange(q, q + tl) =~= t);
                        }
                    } else {
                        let k = vl - q;
                        assert(1 <= k <= vl && k < tl);
                        assert(v.skip(vl - k) =~= t.take(k)) by {
                            assert(forall|m: int| 0 <= m < k ==> #[trigger] v.skip(q)[m] == v[q + m]);
                            assert(forall|m: int| 0 <= m < k ==> v[q + m] == #[trigger] r[i + (q + m)]);
                        }
                    }
                } else {
                    assert(occurs_at(rr, t, p - i - vl)) by {
                        assert(forall|m: int| 0 <= m < tl ==> t[m] == #[trigger] r[i + vl + ((p - i
                            - vl) + m)]);
                        assert(rr.subrange(p - i - vl, p - i - vl + tl) =~= t);
                    }
                }
            }
        }
    }
}

/// One trailing carriage return removed, if present.
pub open spec fn chomp_cr(l: Seq<char>) -> Seq<char> {
    if l.len() > 0 && l[l.len() - 1] == '\r' {
        l.take(l.len() - 1)
    } else {
        l
    }
}

/// The physical lines of `s`: split at `'\n'` or `"\r\n"`, neither kept in
/// the lines; a final line ending produces no extra empty line; a carriage
/// return not followed by a line feed stays in its line.
pub open spec fn lines_of(s: Seq<char>) -> Seq<Seq<char>>
    decreases s.len(),
{
    if s.len() == 0 {
        Seq::empty()
    } else if s[0] == '\n' {
        seq![Seq::<char>::empty()] + lines_of(s.skip(1))
    } else if s[0] == '\r' && 1 < s.len() && s[1] == '\n' {
        seq![Seq::<char>::empty()] + lines_of(s.skip(2))
    } else {
        let r = lines_of(s.skip(1));
        if r.len() == 0 {
            seq![seq![s[0]]]
        } else {
            seq![seq![s[0]] + r[0]] + r.skip(1)
        }
    }
}

/// Consuming a buffered line: the lines of `buf + '\n' + rest` are the
/// buffered line (with a trailing carriage return dropped) followed by the
/// lines of the rest.
pub proof fn lemma_lines_of_newline(buf: Seq<char>, rest: Seq<char>)
    requires
        !buf.contains('\n'),
    ensures
        lines_of(buf + seq!['\n'] + rest) == seq![chomp_cr(buf)] + lines_of(rest),
    decreases buf.len(),
{
    let s = buf + seq!['\n'] + rest;
    if buf.len() == 0 {
        assert(s[0] == '\n');
        assert(s.skip(1) =~= rest);
        assert(chomp_cr(buf) =~= Seq::<char>::empty());
        assert(seq![chomp_cr(buf)] =~= seq![Seq::<char>::empty()]);
    } else if buf.len() == 1 && buf[0] == '\r' {
        assert(s[0] == '\r' && s[1] == '\n');
        assert(s.skip(2) =~= rest);
        assert(chomp_cr(buf) =~= Seq::<char>::empty());
        assert(seq![chomp_cr(buf)] =~= seq![Seq::<char>::empty()]);
    } else {
        assert(buf[0] != '\n');
        if s[0] == '\r' && s[1] == '\n' {
            assert(buf.len() >= 2 && buf[1] == '\n');
            assert(false);
        }
        let buf1 = buf.skip(1);
        assert(forall|k: int| 0 <= k < buf1.len() ==> buf1[k] == buf[k + 1]);
        assert(!buf1.contains('\n'));
        lemma_lines_of_newline(buf1, rest);
        assert(s.skip(1) =~= buf1 + seq!['\n'] + rest);
        let r = lines_of(s.skip(1));
        assert(r == seq![chomp_cr(buf1)] + lines_of(rest));
        assert(r.len() >= 1);
        assert(r[0] == chomp_cr(buf1));
        assert(r.skip(1) =~= lines_of(rest));
        // chomp_cr commutes with prepending a character
        assert(seq![buf[0]] + chomp_cr(buf1) =~= chomp_cr(buf)) by {
            if buf1.len() == 0 {
                assert(buf[buf.len() - 1] == buf[0]);
            } else if buf1[buf1.len() - 1] == '\r' {
                assert(buf[buf.len() - 1] == '\r');
                assert(seq![buf[0]] + buf1.take(buf1.len() - 1) =~= buf.take(buf.len() - 1));
            } else {
                assert(buf[buf.len() - 1] == buf1[buf1.len() - 1]);
            }
        }
        assert(lines_of(s) == seq![seq![buf[0]] + r[0]] + r.skip(1));
        assert(seq![seq![buf[0]] + r[0]] + r.skip(1) =~= seq![chomp_cr(buf)] + lines_of(rest));
    }
}

/// A final buffered line without a newline is one whole line (or none, if
/// empty).
pub proof fn lemma_lines_of_tail(buf: Seq<char>)
    requires
        !buf.contains('\n'),
    ensures
        buf.len() == 0 ==> lines_of(buf) == Seq::<Seq<char>>::empty(),
        buf.len() > 0 ==> lines_of(buf) == seq![buf],
    decreases buf.len(),
{
    if buf.len() > 0 {
        assert(buf[0] != '\n');
        if buf.len() > 1 && buf[0] == '\r' && buf[1] == '\n' {
            assert(false);
        }
        let buf1 = buf.skip(1);
        assert(forall|k: int| 0 <= k < buf1.len() ==> buf1[k] == buf[k + 1]);
        assert(!buf1.contains('\n'));
        lemma_lines_of_tail(buf1);
        if buf1.len() == 0 {
            assert(buf =~= seq![buf[0]]);
        } else {
            assert(seq![buf[0]] + buf1 =~= buf);
            assert(lines_of(buf) =~= seq![buf]);
        }
    }
}

/// Splits text into its physical lines.
pub fn split_lines(s: &str) -> (r: Vec<String>)
    ensures
        r.deep_view() == lines_of(s@),
{
    let s_len = s.unicode_len();
    let mut out: Vec<String> = Vec::new();
    let mut buf = String::new();
    let mut i: usize = 0;
    proof {
        assert(buf@ + s@.skip(0) =~= s@);
        assert(out.deep_view() =~= Seq::<Seq<char>>::empty());
    }
    while i < s_len
        invariant
            s_len == s@.len(),
            i <= s_len,
            !buf@.contains('\n'),
            lines_of(s@) == out.deep_view() + lines_of(buf@ + s@.skip(i as int)),
        decreases s_len - i,
    {
        let c = s.get_char(i);
        if c == '\n' {
            let ghost prev_buf = buf@;
            let ghost prev_out = out.deep_view();
            let bl = buf.as_str().unicode_len();
            let line = if bl > 0 && buf.as_str().get_char(bl - 1) == '\r' {
                String::from_str(buf.as_str().substring_char(0, bl - 1))
            } else {
                buf
            };
            proof {
                assert(line@ == chomp_cr(prev_buf));
            }
            out.push(line);
            buf = String::new();
            i += 1;
            proof {
                lemma_lines_of_newline(prev_buf, s@.skip(i as int));
                assert(prev_buf + s@.skip(i - 1) =~= prev_buf + seq!['\n'] + s@.skip(i as int));
                assert(out.deep_view() =~= prev_out.push(chomp_cr(prev_buf)));
                assert(prev_out + (seq![chomp_cr(prev_buf)] + lines_of(
                    buf@ + s@.skip(i as int),
                )) =~= out.deep_view() + lines_of(buf@ + s@.skip(i as int))) by {
                    assert(buf@ + s@.skip(i as int) =~= s@.skip(i as int));
                }
            }
        } else {
            let ghost prev_buf = buf@;
            push_char(&mut buf, c);
            i += 1;
            proof {
                assert(buf@ =~= prev_buf.push(c));
                assert(!buf@.contains('\n')) by {
                    assert(forall|k: int|
                        0 <= k < buf@.len() - 1 ==> buf@[k] == prev_buf[k]);
                }
                assert(prev_buf + s@.skip(i - 1) =~= buf@ + s@.skip(i as int));
            }
        }
    }
    proof {
        assert(buf@ + s@.skip(i as int) =~= buf@);
        lemma_lines_of_tail(buf@);
    }
    if buf.as_str().unicode_len() > 0 {
        let ghost prev_out = out.deep_view();
        let ghost b = buf@;
        out.push(buf);
        proof {
            assert(out.deep_view() =~= prev_out + seq![b]);
        }
    } else {
        proof {
            assert(out.deep_view() =~= out.deep_view() + Seq::<Seq<char>>::empty());
        }
    }
    out
}

/// A blank character for line trimming.
pub open spec fn is_space(c: char) -> bool {
    c == ' ' || c == '\t' || c == '\r' || c == '\n'
}

/// `l` with leading and trailing blank characters removed.
pub open spec fn trimmed(l: Seq<char>) -> Seq<char>
    decreases l.len(),
{
    if l.len() == 0 {
        l
    } else if is_space(l[0]) {
        trimmed(l.skip(1))
    } else if is_space(l[l.len() - 1]) {
        trimmed(l.take(l.len() - 1))
    } else {
        l
    }
}

proof fn lemma_trimmed_all_space(l: Seq<char>)
    requires
        forall|j: int| 0 <= j < l.len() ==> is_space(l[j]),
    ensures
        trimmed(l) == Seq::<char>::empty(),
    decreases l.len(),
{
    if l.len() > 0 {
        lemma_trimmed_all_space(l.skip(1));
    } else {
        assert(l =~= Seq::<char>::empty());
    }
}

proof fn lemma_trimmed_window(l: Seq<char>, a: int, b: int)
    requires
        0 <= a < b <= l.len(),
        forall|j: int| 0 <= j < a ==> is_space(l[j]),
        forall|j: int| b <= j < l.len() ==> is_space(l[j]),
        !is_space(l[a]),
        !is_space(l[b - 1]),
    ensures
        trimmed(l) == l.subrange(a, b),
    decreases l.len(),
{
    if a > 0 {
        let l1 = l.skip(1);
        lemma_trimmed_window(l1, a - 1, b - 1);
        assert(l1.subrange(a - 1, b - 1) =~= l.subrange(a, b));
    } else if b < l.len() {
        let l1 = l.take(l.len() - 1);
        lemma_trimmed_window(l1, a, b);
        assert(l1.subrange(a, b) =~= l.subrange(a, b));
    } else {
        assert(trimmed(l) == l);
        assert(l.subrange(0, l.len() as int) =~= l);
    }
}

/// `l` with leading and trailing blanks removed.
pub fn trim_line(l: &str) -> (r: String)
    ensures
        r@ == trimmed(l@),
{
    let n = l.unicode_len();
    let mut a: usize = 0;
    while a < n && is_space_exec(l.get_char(a))
        invariant
            n == l@.len(),
            a <= n,
            forall|j: int| 0 <= j < a ==> is_space(l@[j]),
        decreases n - a,
    {
        a += 1;
    }
    if a == n {
        proof {
            lemma_trimmed_all_space(l@);
        }
        return String::new();
    }
    let mut b: usize = n;
    while is_space_exec(l.get_char(b - 1))
        invariant
            n == l@.len(),
            a < b <= n,
            !is_space(l@[a as int]),
            forall|j: int| b <= j < n ==> is_space(l@[j]),
        decreases b,
    {
        b -= 1;
    }
    proof {
        lemma_trimmed_window(l@, a as int, b as int);
    }
    String::from_str(l.substring_char(a, b))
}

/// Character-by-character string equality.
pub fn str_eq(a: &str, b: &str) -> (r: bool)
    ensures
        r == (a@ == b@),
{
    let n = a.unicode_len();
    if n != b.unicode_len() {
        proof {
            assert(a@ != b@);
        }
        return false;
    }
    let mut i: usize = 0;
    while i < n
        invariant
            n == a@.len(),
            n == b@.len(),
            i <= n,
            forall|j: int| 0 <= j < i ==> a@[j] == b@[j],
        decreases n - i,
    {
        if a.get_char(i) != b.get_char(i) {
            return false;
        }
        i += 1;
    }
    proof {
        assert(a@ =~= b@);
    }
    true
}

/// Whether the line is a comment: its first character is `'#'`.
pub fn starts_with_hash(s: &str) -> (r: bool)
    ensures
        r == (s@.len() > 0 && s@[0] == '#'),
{
    if s.unicode_len() > 0 {
        s.get_char(0) == '#'
    } else {
        false
    }
}

/// Whether `c` is a blank character.
pub fn is_space_exec(c: char) -> (r: bool)
    ensures
        r == is_space(c),
{
    c == ' ' || c == '\t' || c == '\r' || c == '\n'
}

} // verus!
