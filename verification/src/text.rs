//! Small text helpers over std's `String`.
use vstd::prelude::*;

verus! {

/// Calls `String::push`: std documents that it appends the character to the end of the string.
#[verifier::external_body]
pub(crate) fn push_char(text: &mut String, c: char)
    ensures
        final(text)@ == old(text)@.push(c),
{
    text.push(c);
}

/// `prefix` followed by `tail`, as a new string.
pub(crate) fn joined(prefix: &str, tail: &str) -> (text: String)
    ensures
        text@ == prefix@ + tail@,
{
    let mut text = prefix.to_owned();
    text.append(tail);
    text
}

/// Whether `a` comes before `b` in the order of std's strings: at the first
/// position where they differ the character of `a` has the lower code point, or
/// `a` is a proper prefix of `b`.
pub open spec fn lex_less(a: Seq<char>, b: Seq<char>) -> bool {
    exists|i: int|
        #![trigger a.take(i), b.take(i)]
        0 <= i <= a.len() && i <= b.len() && a.take(i) == b.take(i) && ((i < a.len() && i < b.len()
            && a[i] < b[i]) || (i == a.len() && i < b.len()))
}

/// Whether `a` comes before `b` in the order of std's strings.
pub fn text_less(a: &str, b: &str) -> (less: bool)
    ensures
        less == lex_less(a@, b@),
{
    let la = a.unicode_len();
    let lb = b.unicode_len();
    let mut i: usize = 0;
    while i < la && i < lb
        invariant
            i <= la,
            i <= lb,
            la == a@.len(),
            lb == b@.len(),
            a@.take(i as int) == b@.take(i as int),
        decreases la - i,
    {
        let ca = a.get_char(i);
        let cb = b.get_char(i);
        if ca != cb {
            proof {
                if ca < cb {
                    assert(a@.take(i as int) == b@.take(i as int));
                } else {
                    lemma_first_difference_decides(a@, b@, i as int);
                }
            }
            return ca < cb;
        }
        proof {
            assert(a@.take(i + 1) =~= a@.take(i as int).push(ca));
            assert(b@.take(i + 1) =~= b@.take(i as int).push(cb));
        }
        i = i + 1;
    }
    proof {
        if la < lb {
            assert(a@.take(i as int) == b@.take(i as int));
        } else {
            lemma_prefix_not_less(a@, b@, i as int);
        }
    }
    la < lb
}

/// No text comes before itself.
pub proof fn lemma_lex_irreflexive(a: Seq<char>)
    ensures
        !lex_less(a, a),
{
}

/// Of two texts, at most one comes before the other.
pub proof fn lemma_lex_asymmetric(a: Seq<char>, b: Seq<char>)
    requires
        lex_less(a, b),
    ensures
        !lex_less(b, a),
{
    let i = choose|i: int|
        #![trigger a.take(i), b.take(i)]
        0 <= i <= a.len() && i <= b.len() && a.take(i) == b.take(i) && ((i < a.len() && i < b.len()
            && a[i] < b[i]) || (i == a.len() && i < b.len()));
    if lex_less(b, a) {
        let j = choose|j: int|
            #![trigger b.take(j), a.take(j)]
            0 <= j <= b.len() && j <= a.len() && b.take(j) == a.take(j) && ((j < b.len() && j < a.len()
                && b[j] < a[j]) || (j == b.len() && j < a.len()));
        if i < j {
            assert(a[i] == a.take(j)[i]);
            assert(b[i] == b.take(j)[i]);
        } else if j < i {
            assert(a[j] == a.take(i)[j]);
            assert(b[j] == b.take(i)[j]);
        }
    }
}

/// The order of texts is transitive.
pub proof fn lemma_lex_transitive(a: Seq<char>, b: Seq<char>, c: Seq<char>)
    requires
        lex_less(a, b),
        lex_less(b, c),
    ensures
        lex_less(a, c),
{
    let i = choose|i: int|
        #![trigger a.take(i), b.take(i)]
        0 <= i <= a.len() && i <= b.len() && a.take(i) == b.take(i) && ((i < a.len() && i < b.len()
            && a[i] < b[i]) || (i == a.len() && i < b.len()));
    let j = choose|j: int|
        #![trigger b.take(j), c.take(j)]
        0 <= j <= b.len() && j <= c.len() && b.take(j) == c.take(j) && ((j < b.len() && j < c.len()
            && b[j] < c[j]) || (j == b.len() && j < c.len()));
    let k = if i < j { i } else { j };
    assert forall|m: int| 0 <= m < k implies a.take(k)[m] == c.take(k)[m] by {
        assert(a[m] == a.take(i)[m]);
        assert(b[m] == b.take(i)[m]);
        assert(b[m] == b.take(j)[m]);
        assert(c[m] == c.take(j)[m]);
    }
    assert(a.take(k) =~= c.take(k));
    if i < j {
        assert(b[i] == b.take(j)[i]);
        assert(c[i] == c.take(j)[i]);
    } else if j < i {
        assert(a[j] == a.take(i)[j]);
        assert(b[j] == b.take(i)[j]);
    }
}

/// Of two different texts, one comes before the other.
pub proof fn lemma_lex_total(a: Seq<char>, b: Seq<char>)
    requires
        a != b,
    ensures
        lex_less(a, b) || lex_less(b, a),
{
    assert(a.take(0) =~= b.take(0));
    lemma_lex_total_from(a, b, 0);
}

proof fn lemma_lex_total_from(a: Seq<char>, b: Seq<char>, i: int)
    requires
        a != b,
        0 <= i <= a.len(),
        i <= b.len(),
        a.take(i) == b.take(i),
    ensures
        lex_less(a, b) || lex_less(b, a),
    decreases a.len() - i,
{
    if i == a.len() && i == b.len() {
        assert(a =~= a.take(i));
        assert(b =~= b.take(i));
    } else if i == a.len() {
        assert(a.take(i) == b.take(i));
    } else if i == b.len() {
        assert(b.take(i) == a.take(i));
    } else if a[i] != b[i] {
        if a[i] < b[i] {
            assert(a.take(i) == b.take(i));
        } else {
            assert(b[i] < a[i]);
            assert(b.take(i) == a.take(i));
        }
    } else {
        assert(a.take(i + 1) =~= a.take(i).push(a[i]));
        assert(b.take(i + 1) =~= b.take(i).push(b[i]));
        lemma_lex_total_from(a, b, i + 1);
    }
}

/// Where two texts agree up to `i` and differ at `i`, no earlier or later position decides.
proof fn lemma_first_difference_decides(a: Seq<char>, b: Seq<char>, i: int)
    requires
        0 <= i < a.len(),
        i < b.len(),
        a.take(i) == b.take(i),
        a[i] != b[i],
        !(a[i] < b[i]),
    ensures
        !lex_less(a, b),
{
    if lex_less(a, b) {
        let j = choose|j: int|
            #![trigger a.take(j), b.take(j)]
            0 <= j <= a.len() && j <= b.len() && a.take(j) == b.take(j) && ((j < a.len() && j < b.len()
                && a[j] < b[j]) || (j == a.len() && j < b.len()));
        if j < i {
            assert(a[j] == a.take(i)[j]);
            assert(b[j] == b.take(i)[j]);
        } else if j > i {
            assert(a[i] == a.take(j)[i]);
            assert(b[i] == b.take(j)[i]);
        } else {
            assert(a[i] != b[i]);
        }
    }
}

/// Where `b` runs out no later than `a` and they agree that far, `a` does not come before `b`.
proof fn lemma_prefix_not_less(a: Seq<char>, b: Seq<char>, i: int)
    requires
        0 <= i <= a.len(),
        i == b.len(),
        a.take(i) == b.take(i),
    ensures
        !lex_less(a, b),
{
    if lex_less(a, b) {
        let j = choose|j: int|
            #![trigger a.take(j), b.take(j)]
            0 <= j <= a.len() && j <= b.len() && a.take(j) == b.take(j) && ((j < a.len() && j < b.len()
                && a[j] < b[j]) || (j == a.len() && j < b.len()));
        if j < i {
            assert(a[j] == a.take(i)[j]);
            assert(b[j] == b.take(i)[j]);
        }
    }
}

} // verus!
