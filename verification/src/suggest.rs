use vstd::prelude::*;
use crate::letters::{
    account, is_letter, letter_at, letter_index, letter_count, count_chars,
    lemma_letter_count_nonneg, MAX_TEXT,
};

verus! {

/// The whitespace characters that end a word while typing.
pub open spec fn is_space(c: char) -> bool {
    c == ' ' || c == '\t' || c == '\n' || c == '\r'
}

/// The word being typed at the end of `s`: the run of non-whitespace
/// characters that ends the text, empty when the text ends in whitespace
/// or is empty.
pub open spec fn trailing_word(s: Seq<char>) -> Seq<char>
    decreases s.len(),
{
    if s.len() == 0 {
        Seq::empty()
    } else if is_space(s.last()) {
        Seq::empty()
    } else {
        trailing_word(s.drop_last()).push(s.last())
    }
}

/// `p` is a prefix of `w`, character by character.
pub open spec fn prefix_ok(p: Seq<char>, w: Seq<char>) -> bool {
    p.len() <= w.len() && forall|t: int| 0 <= t < p.len() ==> p[t] == w[t]
}

/// A word `w` is legal for prefix `ws` under account `acct` when, in every
/// alphabet slot, the extra letters needed to turn `ws` into `w` do not
/// exceed what the account allows.
pub open spec fn legal(ws: Seq<char>, w: Seq<char>, acct: Seq<i32>) -> bool {
    forall|i: int| 0 <= i < 26 ==> account(ws, w, i) <= acct[i] as int
}

/// The suggestion filter: keep a word when the typed prefix matches it and
/// it is legal under the account.
pub open spec fn keeps(ws: Seq<char>, acct: Seq<i32>, w: Seq<char>) -> bool {
    prefix_ok(ws, w) && legal(ws, w, acct)
}

/// Dictionary words that survive the filter, in dictionary order.
pub open spec fn filtered(ws: Seq<char>, acct: Seq<i32>, words: Seq<Seq<char>>) -> Seq<
    Seq<char>,
> {
    words.filter(|w: Seq<char>| keeps(ws, acct, w))
}

/// Inserts `w` after every entry at least as long as it, so that equal
/// lengths keep their earlier order.
pub open spec fn insert_desc(l: Seq<Seq<char>>, w: Seq<char>) -> Seq<Seq<char>>
    decreases l.len(),
{
    if l.len() == 0 {
        seq![w]
    } else if l[0].len() >= w.len() {
        seq![l[0]] + insert_desc(l.drop_first(), w)
    } else {
        seq![w] + l
    }
}

/// Stable sort by descending length: entries of equal length stay in their
/// original order.
pub open spec fn sort_desc(l: Seq<Seq<char>>) -> Seq<Seq<char>>
    decreases l.len(),
{
    if l.len() == 0 {
        Seq::empty()
    } else {
        insert_desc(sort_desc(l.drop_last()), l.last())
    }
}

/// The first `n` entries of `l`, or all of them when there are fewer.
pub open spec fn cap(l: Seq<Seq<char>>, n: int) -> Seq<Seq<char>> {
    if l.len() <= n {
        l
    } else {
        l.take(n)
    }
}

/// The character sequences held by a sequence of vectors.
pub open spec fn views_of(l: Seq<Vec<char>>) -> Seq<Seq<char>> {
    Seq::new(l.len(), |i: int| l[i]@)
}

/// What one refresh of the suggestion list returns: the dictionary words
/// that match the trailing word of the active text and are legal under the
/// account, stably sorted by descending length and capped at 100 entries.
pub open spec fn suggestions_spec(
    active: Seq<char>,
    acct: Seq<i32>,
    words: Seq<Seq<char>>,
) -> Seq<Seq<char>> {
    cap(sort_desc(filtered(trailing_word(active), acct, words)), 100)
}

/// A text's trailing word is the suffix that starts at `k`, when everything
/// from `k` on is non-whitespace and `k` sits at the start or right after a
/// whitespace character.
proof fn lemma_trailing_word_suffix(s: Seq<char>, k: int)
    requires
        0 <= k <= s.len(),
        forall|j: int| k <= j < s.len() ==> !is_space(s[j]),
        k > 0 ==> is_space(s[k - 1]),
    ensures
        trailing_word(s) == s.subrange(k, s.len() as int),
    decreases s.len(),
{
    if k == s.len() {
        assert(s.subrange(k, s.len() as int) =~= Seq::<char>::empty());
    } else {
        lemma_trailing_word_suffix(s.drop_last(), k);
        assert(trailing_word(s) == trailing_word(s.drop_last()).push(s.last()));
        assert(s.drop_last().subrange(k, s.len() - 1).push(s[s.len() - 1]) =~= s.subrange(
            k,
            s.len() as int,
        ));
    }
}

/// `insert_desc` places `w` exactly at the first position whose entry is
/// shorter than `w`.
proof fn lemma_insert_desc_at(l: Seq<Seq<char>>, w: Seq<char>, i: int)
    requires
        0 <= i <= l.len(),
        forall|j: int| 0 <= j < i ==> l[j].len() >= w.len(),
        i < l.len() ==> l[i].len() < w.len(),
    ensures
        insert_desc(l, w) == l.insert(i, w),
    decreases l.len(),
{
    if l.len() == 0 {
        assert(insert_desc(l, w) =~= l.insert(0, w));
    } else if i == 0 {
        assert(insert_desc(l, w) =~= l.insert(0, w));
    } else {
        lemma_insert_desc_at(l.drop_first(), w, i - 1);
        assert(seq![l[0]] + l.drop_first().insert(i - 1, w) =~= l.insert(i, w));
    }
}

/// Every slot of a letter tally is zero exactly when the text holds no
/// letters at all.
proof fn lemma_zero_tally_no_letters(w: Seq<char>)
    ensures
        (forall|i: int| 0 <= i < 26 ==> letter_count(w, i) == 0) <==> (forall|j: int|
            0 <= j < w.len() ==> !is_letter(w[j])),
    decreases w.len(),
{
    if w.len() > 0 {
        lemma_zero_tally_no_letters(w.drop_last());
        if forall|j: int| 0 <= j < w.len() ==> !is_letter(w[j]) {
            assert forall|j: int| 0 <= j < w.drop_last().len() implies !is_letter(
                w.drop_last()[j],
            ) by {
                assert(w.drop_last()[j] == w[j]);
            }
            assert forall|i: int| 0 <= i < 26 implies letter_count(w, i) == 0 by {
                assert(letter_count(w.drop_last(), i) == 0);
                assert(!is_letter(w[w.len() - 1]));
                assert(letter_at(w.last(), i) == 0);
            }
        }
        if exists|j: int| 0 <= j < w.len() && is_letter(w[j]) {
            let j = choose|j: int| 0 <= j < w.len() && is_letter(w[j]);
            let i0 = letter_index(w[j]);
            lemma_letter_count_at_least(w, j);
            assert(0 <= i0 < 26);
            assert(letter_count(w, i0) >= 1);
        }
    }
}

/// A text that holds a letter at `j` has at least one in that letter's slot.
proof fn lemma_letter_count_at_least(w: Seq<char>, j: int)
    requires
        0 <= j < w.len(),
        is_letter(w[j]),
    ensures
        letter_count(w, letter_index(w[j])) >= 1,
    decreases w.len(),
{
    lemma_letter_count_nonneg(w.drop_last(), letter_index(w[j]));
    if j < w.len() - 1 {
        lemma_letter_count_at_least(w.drop_last(), j);
    }
}

/// With an empty prefix and an all-zero account, a word is legal exactly
/// when it holds no letters at all.
pub proof fn lemma_legal_zero_account(acct: Seq<i32>, w: Seq<char>)
    requires
        acct.len() == 26,
        forall|i: int| 0 <= i < 26 ==> acct[i] == 0i32,
    ensures
        legal(Seq::empty(), w, acct) <==> (forall|j: int|
            0 <= j < w.len() ==> !is_letter(w[j])),
{
    lemma_zero_tally_no_letters(w);
    assert forall|i: int| 0 <= i < 26 implies account(Seq::empty(), w, i) == letter_count(
        w,
        i,
    ) by {}
    if legal(Seq::empty(), w, acct) {
        assert forall|i: int| 0 <= i < 26 implies letter_count(w, i) == 0 by {
            lemma_letter_count_nonneg(w, i);
            assert(account(Seq::empty(), w, i) <= acct[i] as int);
        }
    }
}

/// The word being typed at the end of the active text.
pub fn word_start(active: &Vec<char>) -> (r: Vec<char>)
    ensures
        r@ == trailing_word(active@),
        r@.len() <= active@.len(),
{
    let n = active.len();
    let mut s: usize = n;
    while s > 0 && !is_space_char(active[s - 1])
        invariant
            s <= n,
            n == active@.len(),
            forall|j: int| s <= j < n ==> !is_space(active@[j]),
        decreases s,
    {
        s = s - 1;
    }
    let mut r: Vec<char> = Vec::new();
    let mut j: usize = s;
    while j < n
        invariant
            s <= j <= n,
            n == active@.len(),
            r@ == active@.subrange(s as int, j as int),
        decreases n - j,
    {
        let c = active[j];
        r.push(c);
        proof {
            assert(active@.subrange(s as int, j as int).push(active@[j as int]) =~= active@
                .subrange(s as int, j + 1 as int));
        }
        j = j + 1;
    }
    proof {
        lemma_trailing_word_suffix(active@, s as int);
    }
    r
}

fn is_space_char(c: char) -> (r: bool)
    ensures
        r == is_space(c),
{
    c == ' ' || c == '\t' || c == '\n' || c == '\r'
}

/// Character-wise prefix test.
pub fn starts_with(p: &Vec<char>, w: &Vec<char>) -> (r: bool)
    ensures
        r == prefix_ok(p@, w@),
{
    if p.len() > w.len() {
        return false;
    }
    let mut j: usize = 0;
    while j < p.len()
        invariant
            j <= p@.len(),
            p@.len() <= w@.len(),
            forall|t: int| 0 <= t < j ==> p@[t] == w@[t],
        decreases p@.len() - j,
    {
        if p[j] != w[j] {
            return false;
        }
        j = j + 1;
    }
    true
}

/// The legality test: the letters needed beyond the typed prefix must not
/// exceed the account in any slot.
pub fn is_legal(ws: &Vec<char>, w: &Vec<char>, letters: &Vec<i32>) -> (r: bool)
    requires
        letters@.len() == 26,
        ws@.len() <= MAX_TEXT,
        w@.len() <= MAX_TEXT,
    ensures
        r == legal(ws@, w@, letters@),
{
    let need = count_chars(ws, w);
    let mut i: usize = 0;
    while i < 26
        invariant
            i <= 26,
            need@.len() == 26,
            letters@.len() == 26,
            forall|t: int| 0 <= t < 26 ==> need@[t] == account(ws@, w@, t),
            forall|t: int| 0 <= t < i ==> account(ws@, w@, t) <= letters@[t] as int,
        decreases 26 - i,
    {
        if need[i] > letters[i] {
            return false;
        }
        i = i + 1;
    }
    true
}

fn copy_chars(w: &Vec<char>) -> (r: Vec<char>)
    ensures
        r@ == w@,
{
    let mut r: Vec<char> = Vec::new();
    let mut j: usize = 0;
    while j < w.len()
        invariant
            j <= w@.len(),
            r@ == w@.subrange(0, j as int),
        decreases w@.len() - j,
    {
        let c = w[j];
        r.push(c);
        proof {
            assert(w@.subrange(0, j as int).push(w@[j as int]) =~= w@.subrange(0, j + 1 as int));
        }
        j = j + 1;
    }
    proof {
        assert(w@.subrange(0, w@.len() as int) =~= w@);
    }
    r
}

/// Inserts a ranked word after every at-least-as-long entry, keeping the
/// list sorted by descending length with earlier entries winning ties.
fn insert_ranked(res: &mut Vec<Vec<char>>, w: Vec<char>)
    ensures
        views_of(final(res)@) == insert_desc(views_of(old(res)@), w@),
        final(res)@.len() == old(res)@.len() + 1,
{
    let mut i: usize = 0;
    while i < res.len() && res[i].len() >= w.len()
        invariant
            i <= res@.len(),
            *res == *old(res),
            forall|j: int| 0 <= j < i ==> res@[j]@.len() >= w@.len(),
        decreases res@.len() - i,
    {
        i = i + 1;
    }
    proof {
        lemma_insert_desc_at(views_of(res@), w@, i as int);
    }
    let ghost before = res@;
    res.insert(i, w);
    proof {
        assert(views_of(res@) =~= views_of(before).insert(i as int, w@));
    }
}

/// Recomputes the suggestion list from the active text, the letter account
/// and the dictionary: the words that extend the trailing word and are
/// legal, stably sorted by descending length, at most 100 of them.
pub fn refresh_suggestions(active: &Vec<char>, letters: &Vec<i32>, words: &Vec<Vec<char>>) -> (r:
    Vec<Vec<char>>)
    requires
        letters@.len() == 26,
        active@.len() <= MAX_TEXT,
        forall|j: int| 0 <= j < words@.len() ==> #[trigger] words@[j]@.len() <= MAX_TEXT,
    ensures
        views_of(r@) == suggestions_spec(active@, letters@, views_of(words@)),
        r@.len() <= 100,
{
    let ws = word_start(active);
    let ghost wsg = ws@;
    let mut res: Vec<Vec<char>> = Vec::new();
    let mut i: usize = 0;
    proof {
        assert(views_of(words@.take(0)) =~= Seq::<Seq<char>>::empty());
        assert(filtered(wsg, letters@, Seq::<Seq<char>>::empty()) =~= Seq::<Seq<char>>::empty())
            by {
            reveal(Seq::filter);
        }
    }
    while i < words.len()
        invariant
            i <= words@.len(),
            wsg == ws@,
            wsg == trailing_word(active@),
            wsg.len() <= active@.len() <= MAX_TEXT,
            letters@.len() == 26,
            forall|j: int| 0 <= j < words@.len() ==> #[trigger] words@[j]@.len() <= MAX_TEXT,
            views_of(res@) == sort_desc(filtered(wsg, letters@, views_of(words@.take(i as int)))),
        decreases words@.len() - i,
    {
        let w = &words[i];
        let ghost fl_before = filtered(wsg, letters@, views_of(words@.take(i as int)));
        let keep = starts_with(&ws, w) && is_legal(&ws, w, letters);
        if keep {
            let wc = copy_chars(w);
            insert_ranked(&mut res, wc);
        }
        proof {
            let prev = views_of(words@.take(i as int));
            let next = views_of(words@.take(i + 1));
            assert(next =~= prev.push(words@[i as int]@));
            assert(next.drop_last() =~= prev);
            assert(filtered(wsg, letters@, next) == if keep {
                fl_before.push(w@)
            } else {
                fl_before
            }) by {
                reveal(Seq::filter);
            }
            if keep {
                assert(filtered(wsg, letters@, next).drop_last() =~= fl_before);
                assert(sort_desc(filtered(wsg, letters@, next)) == insert_desc(
                    sort_desc(fl_before),
                    w@,
                ));
            }
        }
        i = i + 1;
    }
    proof {
        assert(words@.take(words@.len() as int) =~= words@);
    }
    if res.len() > 100 {
        let ghost full = res@;
        res.truncate(100);
        proof {
            assert(views_of(res@) =~= views_of(full).take(100));
        }
    }
    res
}

} // verus!
