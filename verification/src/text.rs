//! Character classification and whitespace-sensitive string operations:
//! trimming, whitespace-delimited tokenization, and whitespace removal.

use vstd::prelude::*;

verus! {

/// The Unicode white-space characters, exactly the set that line trimming
/// and tokenization treat as separators.
pub open spec fn is_space(c: char) -> bool {
    let u = c as u32;
    ||| (9 <= u && u <= 13)
    ||| u == 0x20
    ||| u == 0x85
    ||| u == 0xA0
    ||| u == 0x1680
    ||| (0x2000 <= u && u <= 0x200A)
    ||| u == 0x2028
    ||| u == 0x2029
    ||| u == 0x202F
    ||| u == 0x205F
    ||| u == 0x3000
}

/// Decides whether a character is white space.
pub fn is_whitespace_char(c: char) -> (b: bool)
    ensures
        b == is_space(c),
{
    let u = c as u32;
    (9 <= u && u <= 13) || u == 0x20 || u == 0x85 || u == 0xA0 || u == 0x1680 || (0x2000 <= u && u
        <= 0x200A) || u == 0x2028 || u == 0x2029 || u == 0x202F || u == 0x205F || u == 0x3000
}

/// The sequence with its leading white space removed.
pub open spec fn trim_front(s: Seq<char>) -> Seq<char>
    decreases s.len(),
{
    if s.len() > 0 && is_space(s[0]) {
        trim_front(s.drop_first())
    } else {
        s
    }
}

/// The sequence with its trailing white space removed.
pub open spec fn trim_back(s: Seq<char>) -> Seq<char>
    decreases s.len(),
{
    if s.len() > 0 && is_space(s.last()) {
        trim_back(s.drop_last())
    } else {
        s
    }
}

/// The sequence with both leading and trailing white space removed: the
/// meaning of every prompt line before it is interpreted.
pub open spec fn trimmed(s: Seq<char>) -> Seq<char> {
    trim_back(trim_front(s))
}

proof fn lemma_trim_front_skip(s: Seq<char>, i: int)
    requires
        0 <= i <= s.len(),
        forall|j: int| 0 <= j < i ==> is_space(#[trigger] s[j]),
    ensures
        trim_front(s) == trim_front(s.skip(i)),
    decreases i,
{
    if i == 0 {
        assert(s.skip(0) =~= s);
    } else {
        assert(is_space(s[0]));
        assert(s.drop_first() =~= s.skip(1));
        lemma_trim_front_skip(s.skip(1), i - 1);
        assert(s.skip(1).skip(i - 1) =~= s.skip(i));
    }
}

proof fn lemma_trim_back_take(s: Seq<char>, j: int)
    requires
        0 <= j <= s.len(),
        forall|k: int| j <= k < s.len() ==> is_space(#[trigger] s[k]),
    ensures
        trim_back(s) == trim_back(s.take(j)),
    decreases s.len() - j,
{
    if j == s.len() {
        assert(s.take(j) =~= s);
    } else {
        assert(is_space(s.last()));
        assert(s.drop_last() =~= s.take(s.len() - 1));
        lemma_trim_back_take(s.take(s.len() - 1), j);
        assert(s.take(s.len() - 1).take(j) =~= s.take(j));
    }
}

/// A sequence that neither starts nor ends with white space is its own
/// trimmed form.
pub proof fn lemma_trimmed_of_clean(s: Seq<char>)
    requires
        s.len() > 0 ==> !is_space(s[0]),
        s.len() > 0 ==> !is_space(s[s.len() - 1]),
    ensures
        trimmed(s) == s,
{
}

/// Trimming is idempotent: a trimmed line is unchanged by trimming again.
pub proof fn lemma_trimmed_idempotent(s: Seq<char>)
    ensures
        trimmed(trimmed(s)) == trimmed(s),
{
    lemma_trim_front_clean(s);
    lemma_trim_back_clean(trim_front(s));
    let t = trimmed(s);
    if t.len() > 0 {
        lemma_trimmed_of_clean(t);
    } else {
        assert(t =~= Seq::<char>::empty());
    }
}

proof fn lemma_trim_front_clean(s: Seq<char>)
    ensures
        trim_front(s).len() > 0 ==> !is_space(trim_front(s)[0]),
        trim_front(s).len() <= s.len(),
    decreases s.len(),
{
    if s.len() > 0 && is_space(s[0]) {
        lemma_trim_front_clean(s.drop_first());
    }
}

proof fn lemma_trim_back_clean(s: Seq<char>)
    ensures
        trim_back(s).len() > 0 ==> !is_space(trim_back(s).last()),
        trim_back(s).len() <= s.len(),
        s.len() > 0 && !is_space(s[0]) && trim_back(s).len() > 0 ==> !is_space(trim_back(s)[0]),
        trim_back(s) =~= s.take(trim_back(s).len() as int),
    decreases s.len(),
{
    if s.len() > 0 && is_space(s.last()) {
        lemma_trim_back_clean(s.drop_last());
    }
}

/// Removes leading and trailing white space, exactly as `trimmed` describes.
pub fn trim(s: &str) -> (r: String)
    ensures
        r@ == trimmed(s@),
{
    let n = s.unicode_len();
    let mut a: usize = 0;
    while a < n && is_whitespace_char(s.get_char(a))
        invariant
            0 <= a <= n,
            n == s@.len(),
            forall|j: int| 0 <= j < a ==> is_space(#[trigger] s@[j]),
        decreases n - a,
    {
        a = a + 1;
    }
    proof {
        lemma_trim_front_skip(s@, a as int);
    }
    if a == n {
        proof {
            assert(s@.skip(a as int) =~= Seq::<char>::empty());
            assert(trimmed(s@) =~= Seq::<char>::empty());
        }
        return String::new();
    }
    // s@[a] is not white space, so trim_front(s@) == s@.skip(a).
    assert(trim_front(s@) == s@.skip(a as int));
    let mut b: usize = n;
    while b > a + 1 && is_whitespace_char(s.get_char(b - 1))
        invariant
            a < b <= n,
            n == s@.len(),
            !is_space(s@[a as int]),
            forall|k: int| b <= k < n ==> is_space(#[trigger] s@[k]),
        decreases b,
    {
        b = b - 1;
    }
    // s@[b - 1] is not white space: either the scan stopped on a non-space
    // character, or b == a + 1 and s@[a] is known not to be one.
    let ghost t = s@.skip(a as int);
    proof {
        lemma_trim_back_take(t, b - a);
        assert(!is_space(t[(b - a) - 1])) by {
            assert(t[(b - a) - 1] == s@[b - 1]);
        }
        assert(trim_back(t.take(b - a)) == t.take(b - a));
        assert(t.take(b - a) =~= s@.subrange(a as int, b as int));
    }
    let r = s.substring_char(a, b);
    r.to_owned()
}

/// The white-space-delimited tokenization of `s`, read left to right from
/// position `i` with `cur` the partial token in progress and `out` the tokens
/// already complete.
pub open spec fn words_from(s: Seq<char>, i: int, cur: Seq<char>, out: Seq<Seq<char>>) -> Seq<
    Seq<char>,
>
    decreases s.len() - i,
{
    if i < 0 || i >= s.len() {
        if cur.len() > 0 {
            out.push(cur)
        } else {
            out
        }
    } else if is_space(s[i]) {
        words_from(
            s,
            i + 1,
            Seq::empty(),
            if cur.len() > 0 {
                out.push(cur)
            } else {
                out
            },
        )
    } else {
        words_from(s, i + 1, cur.push(s[i]), out)
    }
}

/// The white-space-delimited tokens of `s`: maximal runs of non-space
/// characters, so consecutive separators collapse and yield no empty token.
pub open spec fn words_of(s: Seq<char>) -> Seq<Seq<char>> {
    words_from(s, 0, Seq::empty(), Seq::empty())
}

/// A non-empty token with no white space in it.
pub open spec fn word_clean(w: Seq<char>) -> bool {
    &&& w.len() > 0
    &&& forall|j: int| 0 <= j < w.len() ==> !is_space(#[trigger] w[j])
}

proof fn lemma_words_from_clean(s: Seq<char>, i: int, cur: Seq<char>, out: Seq<Seq<char>>)
    requires
        0 <= i <= s.len(),
        forall|j: int| 0 <= j < cur.len() ==> !is_space(#[trigger] cur[j]),
        forall|k: int| 0 <= k < out.len() ==> word_clean(#[trigger] out[k]),
    ensures
        forall|k: int|
            0 <= k < words_from(s, i, cur, out).len() ==> word_clean(
                #[trigger] words_from(s, i, cur, out)[k],
            ),
    decreases s.len() - i,
{
    let r = words_from(s, i, cur, out);
    if i >= s.len() {
        if cur.len() > 0 {
            assert forall|k: int| 0 <= k < r.len() implies word_clean(#[trigger] r[k]) by {
                if k < out.len() {
                    assert(r[k] == out[k]);
                } else {
                    assert(r[k] == cur);
                }
            }
        }
    } else if is_space(s[i]) {
        let out2 = if cur.len() > 0 {
            out.push(cur)
        } else {
            out
        };
        assert forall|k: int| 0 <= k < out2.len() implies word_clean(#[trigger] out2[k]) by {
            if cur.len() > 0 && k == out.len() {
                assert(out2[k] == cur);
            } else {
                assert(out2[k] == out[k]);
            }
        }
        lemma_words_from_clean(s, i + 1, Seq::empty(), out2);
        assert(r == words_from(s, i + 1, Seq::<char>::empty(), out2));
    } else {
        let cur2 = cur.push(s[i]);
        assert forall|j: int| 0 <= j < cur2.len() implies !is_space(#[trigger] cur2[j]) by {
            if j < cur.len() {
                assert(cur2[j] == cur[j]);
            } else {
                assert(cur2[j] == s[i]);
            }
        }
        lemma_words_from_clean(s, i + 1, cur2, out);
        assert(r == words_from(s, i + 1, cur2, out));
    }
}

/// Every token of a tokenization is non-empty and free of white space:
/// consecutive separators never produce an empty token.
pub proof fn lemma_words_clean(s: Seq<char>)
    ensures
        forall|k: int| 0 <= k < words_of(s).len() ==> word_clean(#[trigger] words_of(s)[k]),
{
    lemma_words_from_clean(s, 0, Seq::empty(), Seq::empty());
}

/// Splits `s` into its white-space-delimited tokens, exactly as `words_of`
/// describes.
pub fn split_words(s: &str) -> (r: Vec<String>)
    ensures
        r.deep_view() == words_of(s@),
{
    let n = s.unicode_len();
    let mut out: Vec<String> = Vec::new();
    let mut i: usize = 0;
    let mut start: usize = 0;
    proof {
        assert(out.deep_view() =~= Seq::<Seq<char>>::empty());
        assert(s@.subrange(0, 0) =~= Seq::<char>::empty());
    }
    while i < n
        invariant
            0 <= start <= i <= n,
            n == s@.len(),
            forall|k: int| start <= k < i ==> !is_space(#[trigger] s@[k]),
            words_of(s@) == words_from(
                s@,
                i as int,
                s@.subrange(start as int, i as int),
                out.deep_view(),
            ),
        decreases n - i,
    {
        let ghost cur = s@.subrange(start as int, i as int);
        let ghost out0 = out.deep_view();
        if is_whitespace_char(s.get_char(i)) {
            if start < i {
                let w = s.substring_char(start, i);
                out.push(w.to_owned());
                proof {
                    assert(out.deep_view() =~= out0.push(cur));
                }
            }
            start = i + 1;
            proof {
                assert(s@.subrange(start as int, i as int + 1) =~= Seq::<char>::empty());
            }
        } else {
            proof {
                assert(s@.subrange(start as int, i as int + 1) =~= cur.push(s@[i as int]));
            }
        }
        i = i + 1;
    }
    if start < n {
        let ghost cur = s@.subrange(start as int, n as int);
        let ghost out0 = out.deep_view();
        let w = s.substring_char(start, n);
        out.push(w.to_owned());
        proof {
            assert(out.deep_view() =~= out0.push(cur));
        }
    }
    out
}

/// The characters of `s` that are not white space, in order.
pub open spec fn without_spaces(s: Seq<char>) -> Seq<char>
    decreases s.len(),
{
    if s.len() == 0 {
        Seq::empty()
    } else if is_space(s[0]) {
        without_spaces(s.drop_first())
    } else {
        seq![s[0]] + without_spaces(s.drop_first())
    }
}

/// No white space survives the removal.
pub proof fn lemma_without_spaces_has_no_space(s: Seq<char>)
    ensures
        forall|j: int| 0 <= j < without_spaces(s).len() ==> !is_space(#[trigger] without_spaces(s)[j]),
    decreases s.len(),
{
    if s.len() > 0 {
        lemma_without_spaces_has_no_space(s.drop_first());
        let r = without_spaces(s);
        let rest = without_spaces(s.drop_first());
        if !is_space(s[0]) {
            assert forall|j: int| 0 <= j < r.len() implies !is_space(#[trigger] r[j]) by {
                if j == 0 {
                    assert(r[0] == s[0]);
                } else {
                    assert(r[j] == rest[j - 1]);
                }
            }
        }
    }
}

/// Removes every white-space character of `s`, keeping the rest in order.
pub fn strip_whitespace(s: &str) -> (r: String)
    ensures
        r@ == without_spaces(s@),
{
    let n = s.unicode_len();
    let mut acc = String::new();
    let mut i: usize = 0;
    proof {
        assert(s@.skip(0) =~= s@);
        assert(acc@ + without_spaces(s@) =~= without_spaces(s@));
    }
    while i < n
        invariant
            0 <= i <= n,
            n == s@.len(),
            without_spaces(s@) == acc@ + without_spaces(s@.skip(i as int)),
        decreases n - i,
    {
        let ghost acc0 = acc@;
        let ghost rest = s@.skip(i as int);
        proof {
            assert(rest.len() > 0);
            assert(rest[0] == s@[i as int]);
            assert(rest.drop_first() =~= s@.skip(i as int + 1));
        }
        if !is_whitespace_char(s.get_char(i)) {
            let piece = s.substring_char(i, i + 1);
            acc.append(piece);
            proof {
                assert(piece@ =~= seq![s@[i as int]]);
                assert(acc0 + (seq![s@[i as int]] + without_spaces(s@.skip(i as int + 1))) =~= (acc0
                    + seq![s@[i as int]]) + without_spaces(s@.skip(i as int + 1)));
            }
        }
        i = i + 1;
    }
    proof {
        assert(s@.skip(n as int) =~= Seq::<char>::empty());
        assert(acc@ + Seq::<char>::empty() =~= acc@);
    }
    acc
}

} // verus!
