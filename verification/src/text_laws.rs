//! What texts are made of: pieces, words, numbers and their order.

use crate::text::{
    all_digits, dec, dec_value, digits_of, find_text_of, index_of_char, is_digit, is_white, join_of,
    lemma_index_of_char, lemma_trim_end, lower_of, padded, replace_of, split_on, split_once_text_of,
    text_lt, trim_of, trim_start_of, usize_of, word_len, words_of,
};
use vstd::prelude::*;

verus! {

/// The pieces of a text between the occurrences of a character hold it nowhere, and with it between
/// them they are the text again.
pub proof fn law_pieces_make_up_the_text(s: Seq<char>, c: char)
    ensures
        join_of(split_on(s, c), seq![c]) == s,
        split_on(s, c).len() > 0,
        forall|i: int| 0 <= i < split_on(s, c).len() ==> !(#[trigger] split_on(s, c)[i]).contains(c),
    decreases s.len(),
{
    lemma_index_of_char(s, c);
    let i = index_of_char(s, c);
    let all = split_on(s, c);
    if i < s.len() {
        let rest = s.skip(i + 1);
        law_pieces_make_up_the_text(rest, c);
        let more = split_on(rest, c);
        lemma_join_head(s.take(i), more, seq![c]);
        assert(all =~= seq![s.take(i)] + more);
        assert(s =~= s.take(i) + seq![c] + rest);
        assert forall|k: int| 0 <= k < all.len() implies !(#[trigger] all[k]).contains(c) by {
            if k == 0 {
                if s.take(i).contains(c) {
                    let j = s.take(i).index_of(c);
                    assert(s[j] == c);
                }
            } else {
                assert(all[k] == more[k - 1]);
            }
        }
    } else {
        assert(all =~= seq![s]);
        assert(all[0] == s);
    }
}

proof fn lemma_join_head(head: Seq<char>, more: Seq<Seq<char>>, sep: Seq<char>)
    requires
        more.len() > 0,
    ensures
        join_of(seq![head] + more, sep) == head + sep + join_of(more, sep),
    decreases more.len(),
{
    let all = seq![head] + more;
    assert(all.last() == more.last());
    if more.len() == 1 {
        assert(all.drop_last() =~= seq![head]);
        assert(join_of(seq![head], sep) == head);
        assert(join_of(all, sep) =~= head + sep + more[0]);
    } else {
        lemma_join_head(head, more.drop_last(), sep);
        assert(all.drop_last() =~= seq![head] + more.drop_last());
        assert(join_of(all, sep) =~= head + sep + join_of(more, sep));
    }
}

/// What is cut off a text at its ends is white space, and what is left has none there.
pub proof fn law_only_white_space_is_trimmed(s: Seq<char>) -> (k: int)
    ensures
        ({
            let t = trim_of(s);
            &&& 0 <= k && k + t.len() <= s.len()
            &&& t == s.subrange(k, k + t.len())
            &&& forall|i: int| 0 <= i < k ==> is_white(#[trigger] s[i])
            &&& forall|i: int| k + t.len() <= i < s.len() ==> is_white(#[trigger] s[i])
            &&& t.len() > 0 ==> !is_white(t[0]) && !is_white(t.last())
        }),
{
    let k = lemma_trim_start(s);
    let t = trim_start_of(s);
    lemma_trim_end(t);
    let e = trim_of(s);
    assert(e =~= s.subrange(k, k + e.len()));
    assert forall|i: int| k + e.len() <= i < s.len() implies is_white(#[trigger] s[i]) by {
        assert(t[i - k] == s[i]);
    }
    k
}

proof fn lemma_trim_start(s: Seq<char>) -> (k: int)
    ensures
        0 <= k <= s.len(),
        trim_start_of(s) == s.skip(k),
        forall|i: int| 0 <= i < k ==> is_white(#[trigger] s[i]),
        k < s.len() ==> !is_white(s[k]),
    decreases s.len(),
{
    if s.len() > 0 && is_white(s[0]) {
        let k = lemma_trim_start(s.drop_first());
        assert(s.drop_first().skip(k) =~= s.skip(k + 1));
        assert forall|i: int| 0 <= i < k + 1 implies is_white(#[trigger] s[i]) by {
            if i > 0 {
                assert(s.drop_first()[i - 1] == s[i]);
            }
        }
        if k + 1 < s.len() {
            assert(s.drop_first()[k] == s[k + 1]);
        }
        k + 1
    } else {
        assert(s.skip(0) =~= s);
        0
    }
}

/// A character counts as white space exactly where Unicode says so.
pub proof fn law_white_space(c: char)
    ensures
        is_white(c) <==> c == ' ' || c == '\t' || c == '\n' || c == '\r' || c as u32 == 0xb || c
            as u32 == 0xc || c as u32 == 0x85 || c as u32 == 0xa0 || c as u32 == 0x1680 || 0x2000
            <= c as u32 <= 0x200a || c as u32 == 0x2028 || c as u32 == 0x2029 || c as u32 == 0x202f
            || c as u32 == 0x205f || c as u32 == 0x3000,
{
}

proof fn lemma_word(s: Seq<char>)
    ensures
        0 <= word_len(s) <= s.len(),
        forall|i: int| 0 <= i < word_len(s) ==> !is_white(#[trigger] s[i]),
        word_len(s) < s.len() ==> is_white(s[word_len(s)]),
    decreases s.len(),
{
    if s.len() > 0 && !is_white(s[0]) {
        let rest = s.drop_first();
        lemma_word(rest);
        assert forall|i: int| 0 <= i < word_len(s) implies !is_white(#[trigger] s[i]) by {
            if i > 0 {
                assert(rest[i - 1] == s[i]);
            }
        }
        if word_len(s) < s.len() {
            assert(rest[word_len(rest)] == s[word_len(s)]);
        }
    }
}

/// The words of a text are not empty and hold no white space; a text has none only where it is all
/// white space.
pub proof fn law_words_hold_no_white_space(s: Seq<char>)
    ensures
        forall|i: int, j: int|
            0 <= i < words_of(s).len() && 0 <= j < words_of(s)[i].len() ==> !is_white(
                #[trigger] words_of(s)[i][j],
            ),
        forall|i: int| 0 <= i < words_of(s).len() ==> (#[trigger] words_of(s)[i]).len() > 0,
        words_of(s).len() == 0 <==> forall|i: int| 0 <= i < s.len() ==> is_white(#[trigger] s[i]),
    decreases s.len(),
{
    let k = lemma_trim_start(s);
    let t = trim_start_of(s);
    let n = word_len(t);
    let all = words_of(s);
    lemma_word(t);
    if t.len() > 0 {
        assert(t[0] == s[k]);
        assert(n > 0);
        let rest = words_of(t.skip(n));
        law_words_hold_no_white_space(t.skip(n));
        assert(all =~= seq![t.take(n)] + rest);
        assert forall|i: int, j: int|
            0 <= i < all.len() && 0 <= j < all[i].len() implies !is_white(#[trigger] all[i][j]) by {
            if i == 0 {
                assert(all[0][j] == t[j]);
            } else {
                assert(all[i] == rest[i - 1]);
                assert(!is_white(rest[i - 1][j]));
            }
        }
        assert forall|i: int| 0 <= i < all.len() implies (#[trigger] all[i]).len() > 0 by {
            if i > 0 {
                assert(all[i] == rest[i - 1]);
            }
        }
    }
}

/// A text stands in another one where it is found, and nowhere before; where it is not found it stands
/// nowhere in it.
pub proof fn law_first_place_is_found(s: Seq<char>, p: Seq<char>)
    ensures
        match find_text_of(s, p) {
            Some(i) => 0 <= i && i + p.len() <= s.len() && s.subrange(i, i + p.len()) == p
                && forall|j: int| 0 <= j < i ==> !p.is_prefix_of(#[trigger] s.skip(j)),
            None => forall|j: int| 0 <= j <= s.len() ==> !p.is_prefix_of(#[trigger] s.skip(j)),
        },
    decreases s.len(),
{
    assert(s.skip(0) =~= s);
    if p.is_prefix_of(s) {
        assert(s.subrange(0, p.len() as int) =~= p);
    } else if s.len() > 0 {
        let rest = s.drop_first();
        law_first_place_is_found(rest, p);
        match find_text_of(rest, p) {
            Some(i) => {
                assert(s.subrange(i + 1, i + 1 + p.len()) =~= rest.subrange(i, i + p.len()));
                assert forall|j: int| 0 <= j < i + 1 implies !p.is_prefix_of(
                    #[trigger] s.skip(j),
                ) by {
                    if j > 0 {
                        assert(s.skip(j) =~= rest.skip(j - 1));
                    }
                }
            },
            None => {
                assert forall|j: int| 0 <= j <= s.len() implies !p.is_prefix_of(
                    #[trigger] s.skip(j),
                ) by {
                    if j > 0 {
                        assert(s.skip(j) =~= rest.skip(j - 1));
                    }
                }
            },
        }
    }
}

/// A text is cut in two at the first place of another one: with that between them, the parts are the
/// text again.
pub proof fn law_text_is_cut_at_the_first_place(s: Seq<char>, p: Seq<char>)
    ensures
        split_once_text_of(s, p) matches Some((a, b)) ==> s == a + p + b && find_text_of(s, p)
            == Some(a.len() as int),
        split_once_text_of(s, p) is None <==> find_text_of(s, p) is None,
{
    law_first_place_is_found(s, p);
    match find_text_of(s, p) {
        Some(i) => {
            assert(s =~= s.take(i) + s.subrange(i, i + p.len()) + s.skip(i + p.len()));
        },
        None => {},
    }
}

/// A text in which another one stands is left as it is up to there; the first place is replaced, and
/// then what follows in the same way. Where it does not stand, nothing is replaced.
pub proof fn law_every_place_is_replaced(s: Seq<char>, p: Seq<char>, w: Seq<char>)
    requires
        p.len() > 0,
    ensures
        match find_text_of(s, p) {
            Some(i) => replace_of(s, p, w) == s.take(i) + w + replace_of(s.skip(i + p.len()), p, w),
            None => replace_of(s, p, w) == s,
        },
    decreases s.len(),
{
    if s.len() == 0 {
        law_first_place_is_found(s, p);
    } else if p.is_prefix_of(s) {
        assert(s.take(0) + w =~= w);
    } else {
        let rest = s.drop_first();
        law_every_place_is_replaced(rest, p, w);
        law_first_place_is_found(rest, p);
        match find_text_of(rest, p) {
            Some(i) => {
                assert(rest.skip(i + p.len()) =~= s.skip(i + 1 + p.len()));
                assert(seq![s[0]] + rest.take(i) =~= s.take(i + 1));
                assert(replace_of(s, p, w) =~= s.take(i + 1) + w + replace_of(
                    s.skip(i + 1 + p.len()),
                    p,
                    w,
                ));
            },
            None => {
                assert(seq![s[0]] + rest =~= s);
            },
        }
    }
}

/// A number is written in digits that stand for it, and begins with a zero only where it is one.
pub proof fn law_number_is_read_back(n: nat)
    ensures
        dec_value(dec(n)) == n,
        all_digits(dec(n)),
        n > 0 ==> dec(n)[0] != '0',
        n <= usize::MAX ==> usize_of(dec(n)) == Some(n),
    decreases n,
{
    let s = dec(n);
    if n < 10 {
        assert(s =~= seq![(('0' as u32) + n) as char]);
        assert(s.drop_last() =~= Seq::<char>::empty());
        assert(dec_value(s.drop_last()) == 0);
    } else {
        law_number_is_read_back(n / 10);
        assert(s.drop_last() =~= dec(n / 10));
        let d = (('0' as u32) + n % 10) as char;
        assert(s.last() == d);
        assert(s[0] == dec(n / 10)[0]);
        assert forall|i: int| 0 <= i < s.len() implies is_digit(#[trigger] s[i]) by {
            if i < s.len() - 1 {
                assert(s[i] == dec(n / 10)[i]);
            }
        }
    }
    assert(is_digit(s[0]));
}

/// The digits that a text begins with are all digits, and are followed by none.
pub proof fn law_leading_digits(s: Seq<char>)
    ensures
        digits_of(s).len() <= s.len(),
        digits_of(s) == s.take(digits_of(s).len() as int),
        forall|i: int| 0 <= i < digits_of(s).len() ==> '0' <= #[trigger] s[i] <= '9',
        digits_of(s).len() < s.len() ==> !('0' <= s[digits_of(s).len() as int] <= '9'),
    decreases s.len(),
{
    if s.len() > 0 && is_digit(s[0]) {
        let rest = s.drop_first();
        law_leading_digits(rest);
        let n = digits_of(s).len() as int;
        assert(digits_of(s) =~= s.take(n));
        assert forall|i: int| 0 <= i < n implies '0' <= #[trigger] s[i] <= '9' by {
            if i > 0 {
                assert(rest[i - 1] == s[i]);
            }
        }
        if n < s.len() {
            assert(rest[n - 1] == s[n]);
        }
    } else {
        assert(digits_of(s) =~= s.take(0));
    }
}

/// The order of texts is that of the first characters in which they differ; a beginning comes before
/// the whole.
pub proof fn law_texts_are_ordered(a: Seq<char>, b: Seq<char>, k: int)
    requires
        0 <= k <= a.len(),
        k <= b.len(),
        forall|i: int| 0 <= i < k ==> a[i] == b[i],
        k < a.len() && k < b.len() ==> a[k] != b[k],
    ensures
        k < a.len() && k < b.len() ==> text_lt(a, b) == ((a[k] as int) < (b[k] as int)),
        k == a.len() ==> text_lt(a, b) == (k < b.len()),
        k == b.len() ==> !text_lt(a, b),
    decreases k,
{
    if k > 0 {
        let x = a.drop_first();
        let y = b.drop_first();
        assert(a[0] == b[0]);
        assert forall|i: int| 0 <= i < k - 1 implies x[i] == y[i] by {
            assert(a[i + 1] == b[i + 1]);
        }
        law_texts_are_ordered(x, y, k - 1);
    }
}

/// Only the ASCII letters in upper case have another one in lower case, which lies as far behind them
/// as `a` lies behind `A`.
pub proof fn law_lower_case(c: char)
    ensures
        'A' <= c <= 'Z' ==> lower_of(c) as int == c as int + ('a' as int - 'A' as int),
        !('A' <= c <= 'Z') ==> lower_of(c) == c,
        lower_of(lower_of(c)) == lower_of(c),
{
}

/// A text that is filled up begins with itself, goes on with spaces, and is at least as long as the
/// width; a longer one stays as it is.
pub proof fn law_padding(s: Seq<char>, width: nat)
    ensures
        s.is_prefix_of(padded(s, width)),
        padded(s, width).len() == if s.len() < width {
            width
        } else {
            s.len()
        },
        forall|i: int| s.len() <= i < padded(s, width).len() ==> #[trigger] padded(s, width)[i] == ' ',
{
    assert(padded(s, width).take(s.len() as int) =~= s);
}

} // verus!
