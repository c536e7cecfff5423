//! Character-sequence helpers shared by the codec and the authorization
//! check: first-occurrence search, terminator-style splitting, and
//! whitespace trimming, each with a verified executable counterpart.

use vstd::prelude::*;
use vstd::string::StrSliceExecFns;
use vstd::string::StringExecFns;

verus! {

/// Index of the first occurrence of `c` in `t`, or `-1` when absent.
pub open spec fn index_of_char(t: Seq<char>, c: char) -> int
    decreases t.len(),
{
    if t.len() == 0 {
        -1
    } else if t[0] == c {
        0
    } else {
        let r = index_of_char(t.drop_first(), c);
        if r < 0 {
            -1
        } else {
            r + 1
        }
    }
}

pub proof fn lemma_index_of_char_props(t: Seq<char>, c: char)
    ensures
        index_of_char(t, c) >= 0 ==> index_of_char(t, c) < t.len() && t[index_of_char(t, c)] == c
            && (forall|j: int| 0 <= j < index_of_char(t, c) ==> t[j] != c),
        index_of_char(t, c) < 0 ==> index_of_char(t, c) == -1 && (forall|j: int|
            0 <= j < t.len() ==> t[j] != c),
    decreases t.len(),
{
    if t.len() == 0 {
    } else if t[0] == c {
    } else {
        lemma_index_of_char_props(t.drop_first(), c);
        let r = index_of_char(t.drop_first(), c);
        if r >= 0 {
            assert(forall|j: int| 0 <= j < r + 1 ==> t[j] != c) by {
                assert(forall|j: int| 1 <= j < r + 1 ==> t[j] == t.drop_first()[j - 1]);
            }
        } else {
            assert(forall|j: int| 0 <= j < t.len() ==> t[j] != c) by {
                assert(forall|j: int| 1 <= j < t.len() ==> t[j] == t.drop_first()[j - 1]);
            }
        }
    }
}

/// `i` is the first occurrence of `c` in `t` exactly when `t[i] == c` and no
/// earlier position holds `c`.
pub proof fn lemma_first_index(t: Seq<char>, c: char, i: int)
    requires
        0 <= i < t.len(),
        t[i] == c,
        forall|j: int| 0 <= j < i ==> t[j] != c,
    ensures
        index_of_char(t, c) == i,
{
    lemma_index_of_char_props(t, c);
}

/// Absence of `c` everywhere in `t` means the search reports `-1`.
pub proof fn lemma_no_index(t: Seq<char>, c: char)
    requires
        forall|j: int| 0 <= j < t.len() ==> t[j] != c,
    ensures
        index_of_char(t, c) == -1,
{
    lemma_index_of_char_props(t, c);
}

/// Split `t` at every occurrence of `sep`, keeping empty segments, as
/// `str::split` does.
pub open spec fn split_at_char(t: Seq<char>, sep: char) -> Seq<Seq<char>>
    decreases t.len(),
{
    let i = index_of_char(t, sep);
    if !(0 <= i < t.len()) {
        seq![t]
    } else {
        seq![t.take(i)] + split_at_char(t.skip(i + 1), sep)
    }
}

/// Split `t` at every occurrence of `sep`, dropping the final segment when
/// it is empty, as `str::split_terminator` does.
pub open spec fn split_term_at_char(t: Seq<char>, sep: char) -> Seq<Seq<char>> {
    if t.len() == 0 {
        Seq::empty()
    } else if t[t.len() - 1] == sep {
        split_at_char(t, sep).drop_last()
    } else {
        split_at_char(t, sep)
    }
}

pub proof fn lemma_split_at_char_len(t: Seq<char>, sep: char)
    ensures
        split_at_char(t, sep).len() >= 1,
        index_of_char(t, sep) >= 0 ==> split_at_char(t, sep).len() >= 2,
    decreases t.len(),
{
    lemma_index_of_char_props(t, sep);
    let i = index_of_char(t, sep);
    if 0 <= i < t.len() {
        lemma_split_at_char_len(t.skip(i + 1), sep);
    }
}

/// Prepending one separator-free segment and a separator to a text
/// prepends exactly that segment to its terminator-split.
pub proof fn lemma_split_term_prepend(seg: Seq<char>, sep: char, t: Seq<char>)
    requires
        forall|j: int| 0 <= j < seg.len() ==> seg[j] != sep,
    ensures
        split_term_at_char(seg + seq![sep] + t, sep) == seq![seg] + split_term_at_char(t, sep),
{
    let whole = seg + seq![sep] + t;
    assert(whole[seg.len() as int] == sep);
    assert(forall|j: int| 0 <= j < seg.len() ==> whole[j] == seg[j]);
    lemma_first_index(whole, sep, seg.len() as int);
    assert(whole.take(seg.len() as int) =~= seg);
    assert(whole.skip(seg.len() as int + 1) =~= t);
    assert(split_at_char(whole, sep) == seq![seg] + split_at_char(t, sep));
    if t.len() == 0 {
        assert(whole[whole.len() - 1] == sep);
        lemma_no_index(t, sep);
        assert(split_at_char(t, sep) =~= seq![t]);
        assert((seq![seg] + seq![t]).drop_last() =~= seq![seg]);
        assert(split_term_at_char(t, sep) =~= Seq::<Seq<char>>::empty());
        assert(seq![seg] + Seq::<Seq<char>>::empty() =~= seq![seg]);
    } else {
        assert(whole[whole.len() - 1] == t[t.len() - 1]);
        lemma_split_at_char_len(t, sep);
        if t[t.len() - 1] == sep {
            assert((seq![seg] + split_at_char(t, sep)).drop_last() =~= seq![seg] + split_at_char(
                t,
                sep,
            ).drop_last());
        }
    }
}

/// Executable split at every occurrence of `sep`, empty segments kept,
/// one `String` per segment.
pub fn split_chars(s: &str, sep: char) -> (r: Vec<String>)
    ensures
        r.deep_view() == split_at_char(s@, sep),
{
    let n = s.unicode_len();
    let mut r: Vec<String> = Vec::new();
    proof {
        assert(s@.skip(0) =~= s@);
    }
    let mut i: usize = 0;
    let mut start: usize = 0;
    while i < n
        invariant
            n == s@.len(),
            start <= i <= n,
            split_at_char(s@, sep) =~= r.deep_view() + split_at_char(
                s@.skip(start as int),
                sep,
            ),
            forall|j: int| start <= j < i ==> s@[j] != sep,
        decreases n - i,
    {
        let c = s.get_char(i);
        if c == sep {
            let ghost u = s@.skip(start as int);
            proof {
                assert(u[i as int - start as int] == sep);
                assert(forall|j: int| 0 <= j < i as int - start as int ==> u[j] != sep);
                lemma_first_index(u, sep, i as int - start as int);
                assert(u.take(i as int - start as int) =~= s@.subrange(
                    start as int,
                    i as int,
                ));
                assert(u.skip(i as int - start as int + 1) =~= s@.skip(i as int + 1));
            }
            let seg = String::from_str(s.substring_char(start, i));
            let ghost old_r = r.deep_view();
            r.push(seg);
            proof {
                assert(r.deep_view() =~= old_r.push(seg@));
                assert(seg@ == u.take(i as int - start as int));
                assert(split_at_char(u, sep) == seq![u.take(i as int - start as int)]
                    + split_at_char(u.skip(i as int - start as int + 1), sep));
                assert(r.deep_view() + split_at_char(s@.skip(i as int + 1), sep) =~= old_r + (
                seq![seg@] + split_at_char(s@.skip(i as int + 1), sep)));
                assert(split_at_char(s@, sep) =~= r.deep_view() + split_at_char(
                    s@.skip(i as int + 1),
                    sep,
                ));
            }
            start = i + 1;
        }
        i = i + 1;
    }
    let ghost u = s@.skip(start as int);
    proof {
        assert(forall|j: int| 0 <= j < u.len() ==> u[j] != sep) by {
            assert(forall|j: int| start <= j < n ==> s@[j] != sep);
        }
        lemma_no_index(u, sep);
        assert(split_at_char(u, sep) =~= seq![u]);
        assert(u =~= s@.subrange(start as int, n as int));
    }
    let seg = String::from_str(s.substring_char(start, n));
    let ghost old_r = r.deep_view();
    r.push(seg);
    proof {
        assert(r.deep_view() =~= old_r.push(seg@));
        assert(seg@ == s@.subrange(start as int, n as int));
        assert(old_r.push(seg@) =~= old_r + seq![u]);
        assert(split_at_char(s@, sep) =~= r.deep_view());
    }
    r
}

/// Executable terminator-style split: as `split_chars`, with the final
/// segment dropped when the text is empty or ends with the separator.
pub fn split_terminator_chars(s: &str, sep: char) -> (r: Vec<String>)
    ensures
        r.deep_view() == split_term_at_char(s@, sep),
{
    let n = s.unicode_len();
    let mut parts = split_chars(s, sep);
    proof {
        lemma_split_at_char_len(s@, sep);
    }
    if n == 0 {
        let ghost before = parts.deep_view();
        parts.pop();
        proof {
            assert(parts.deep_view() =~= before.drop_last());
            assert(before.drop_last() =~= Seq::<Seq<char>>::empty());
        }
        parts
    } else if s.get_char(n - 1) == sep {
        let ghost before = parts.deep_view();
        parts.pop();
        proof {
            assert(parts.deep_view() =~= before.drop_last());
        }
        parts
    } else {
        parts
    }
}

/// Character-for-character string equality, reflected into the views.
pub fn str_eq(a: &str, b: &str) -> (r: bool)
    ensures
        r == (a@ == b@),
{
    let n = a.unicode_len();
    if n != b.unicode_len() {
        return false;
    }
    let mut i: usize = 0;
    while i < n
        invariant
            n == a@.len() == b@.len(),
            i <= n,
            forall|j: int| 0 <= j < i ==> a@[j] == b@[j],
        decreases n - i,
    {
        if a.get_char(i) != b.get_char(i) {
            return false;
        }
        i = i + 1;
    }
    proof {
        assert(a@ =~= b@);
    }
    true
}

/// The whitespace characters stripped from around the stored token: the
/// Unicode White_Space set, the same characters `str::trim` removes.
pub open spec fn is_space_char(c: char) -> bool {
    let u = c as u32;
    u == 0x09 || u == 0x0a || u == 0x0b || u == 0x0c || u == 0x0d || u == 0x20 || u == 0x85
        || u == 0xa0 || u == 0x1680 || (0x2000 <= u && u <= 0x200a) || u == 0x2028 || u == 0x2029
        || u == 0x202f || u == 0x205f || u == 0x3000
}

pub open spec fn trim_front(t: Seq<char>) -> Seq<char>
    decreases t.len(),
{
    if t.len() > 0 && is_space_char(t[0]) {
        trim_front(t.drop_first())
    } else {
        t
    }
}

pub open spec fn trim_back(t: Seq<char>) -> Seq<char>
    decreases t.len(),
{
    if t.len() > 0 && is_space_char(t[t.len() - 1]) {
        trim_back(t.drop_last())
    } else {
        t
    }
}

/// `t` with surrounding whitespace removed.
pub open spec fn trim_spec(t: Seq<char>) -> Seq<char> {
    trim_back(trim_front(t))
}

pub proof fn lemma_trim_front_skip(t: Seq<char>, lo: int)
    requires
        0 <= lo <= t.len(),
        forall|j: int| 0 <= j < lo ==> is_space_char(t[j]),
        lo < t.len() ==> !is_space_char(t[lo]),
    ensures
        trim_front(t) == t.skip(lo),
    decreases lo,
{
    if lo == 0 {
        assert(t.skip(0) =~= t);
    } else {
        lemma_trim_front_skip(t.drop_first(), lo - 1);
        assert(t.drop_first().skip(lo - 1) =~= t.skip(lo));
    }
}

pub proof fn lemma_trim_back_take(t: Seq<char>, hi: int)
    requires
        0 <= hi <= t.len(),
        forall|j: int| hi <= j < t.len() ==> is_space_char(t[j]),
        hi > 0 ==> !is_space_char(t[hi - 1]),
    ensures
        trim_back(t) == t.take(hi),
    decreases t.len(),
{
    if hi == t.len() {
        assert(t.take(hi) =~= t);
    } else {
        assert(is_space_char(t[t.len() - 1]));
        lemma_trim_back_take(t.drop_last(), hi);
        assert(t.drop_last().take(hi) =~= t.take(hi));
    }
}

pub fn is_space(c: char) -> (r: bool)
    ensures
        r == is_space_char(c),
{
    let u = c as u32;
    u == 0x09 || u == 0x0a || u == 0x0b || u == 0x0c || u == 0x0d || u == 0x20 || u == 0x85
        || u == 0xa0 || u == 0x1680 || (0x2000 <= u && u <= 0x200a) || u == 0x2028 || u == 0x2029
        || u == 0x202f || u == 0x205f || u == 0x3000
}

/// Executable trim over the underlying character sequence.
pub fn trim_str(s: &str) -> (r: String)
    ensures
        r@ == trim_spec(s@),
{
    let n = s.unicode_len();
    let mut lo: usize = 0;
    while lo < n && is_space(s.get_char(lo))
        invariant
            n == s@.len(),
            lo <= n,
            forall|j: int| 0 <= j < lo ==> is_space_char(s@[j]),
        decreases n - lo,
    {
        lo = lo + 1;
    }
    proof {
        lemma_trim_front_skip(s@, lo as int);
    }
    let mut hi: usize = n;
    while hi > lo && is_space(s.get_char(hi - 1))
        invariant
            n == s@.len(),
            lo <= hi <= n,
            forall|j: int| hi <= j < n ==> is_space_char(s@[j]),
        decreases hi,
    {
        hi = hi - 1;
    }
    let r = String::from_str(s.substring_char(lo, hi));
    proof {
        let u = s@.skip(lo as int);
        assert(forall|j: int| hi as int - lo as int <= j < u.len() ==> is_space_char(u[j]))
            by {
            assert(forall|j: int| hi <= j < n ==> is_space_char(s@[j]));
        }
        if hi > lo {
            assert(!is_space_char(u[hi as int - lo as int - 1]));
        }
        lemma_trim_back_take(u, hi as int - lo as int);
        assert(u.take(hi as int - lo as int) =~= s@.subrange(lo as int, hi as int));
    }
    r
}

} // verus!
