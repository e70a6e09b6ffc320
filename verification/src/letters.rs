use vstd::prelude::*;
use vstd::seq_lib::group_to_multiset_ensures;

verus! {

/// Upper bound on the character count of any single text the letter
/// account is computed over; keeps every per-letter balance inside `i32`.
pub const MAX_TEXT: usize = 0x3fff_ffff;

/// True of the characters counted by the letter account: ASCII letters only.
/// Digits, punctuation, whitespace and all other characters are ignored.
pub open spec fn is_letter(c: char) -> bool {
    (97 <= c as int && c as int <= 122) || (65 <= c as int && c as int <= 90)
}

/// Alphabet position of an ASCII letter, case-insensitively.
pub open spec fn letter_index(c: char) -> int {
    if 97 <= c as int && c as int <= 122 {
        c as int - 97
    } else {
        c as int - 65
    }
}

/// What one character adds to slot `i` of a letter tally.
pub open spec fn letter_at(c: char, i: int) -> int {
    if is_letter(c) && letter_index(c) == i {
        1
    } else {
        0
    }
}

/// How many characters of `s` are letters of alphabet position `i`.
pub open spec fn letter_count(s: Seq<char>, i: int) -> int
    decreases s.len(),
{
    if s.len() == 0 {
        0
    } else {
        letter_count(s.drop_last(), i) + letter_at(s.last(), i)
    }
}

/// Slot `i` of the account between `a` (the subtract side) and `b`
/// (the add side).
pub open spec fn account(a: Seq<char>, b: Seq<char>, i: int) -> int {
    letter_count(b, i) - letter_count(a, i)
}

/// Maps an ASCII letter to its position in the alphabet, case-insensitively.
pub fn letter_to_index(c: char) -> (r: usize)
    requires
        is_letter(c),
    ensures
        r == letter_index(c),
        r < 26,
{
    let x = c as u32;
    if x >= 97 {
        (x - 97) as usize
    } else {
        (x - 65) as usize
    }
}

pub proof fn lemma_letter_count_nonneg(s: Seq<char>, i: int)
    ensures
        0 <= letter_count(s, i) <= s.len(),
    decreases s.len(),
{
    if s.len() > 0 {
        lemma_letter_count_nonneg(s.drop_last(), i);
    }
}

/// Removing the character at `j` lowers the tally by what that character
/// adds.
pub proof fn lemma_letter_count_remove(s: Seq<char>, j: int, i: int)
    requires
        0 <= j < s.len(),
    ensures
        letter_count(s.remove(j), i) == letter_count(s, i) - letter_at(s[j], i),
    decreases s.len(),
{
    if j == s.len() - 1 {
        assert(s.remove(j) =~= s.drop_last());
    } else {
        lemma_letter_count_remove(s.drop_last(), j, i);
        assert(s.remove(j).drop_last() =~= s.drop_last().remove(j));
        assert(s.remove(j).last() == s.last());
    }
}

/// Two sequences with the same character multiset have the same tally in
/// every slot.
pub proof fn lemma_letter_count_multiset(s1: Seq<char>, s2: Seq<char>, i: int)
    requires
        s1.to_multiset() == s2.to_multiset(),
    ensures
        letter_count(s1, i) == letter_count(s2, i),
    decreases s1.len(),
{
    broadcast use group_to_multiset_ensures;

    if s1.len() == 0 {
        assert(s1.to_multiset().len() == s1.len());
        assert(s2.to_multiset().len() == s2.len());
    } else {
        let c = s1.last();
        let n = s1.len() - 1;
        assert(s1.to_multiset().count(c) > 0);
        assert(s2.contains(c));
        let j = choose|j: int| 0 <= j < s2.len() && s2[j] == c;
        assert(s1.drop_last() =~= s1.remove(n));
        assert(s1.remove(n).to_multiset() == s1.to_multiset().remove(c));
        assert(s2.remove(j).to_multiset() == s2.to_multiset().remove(c));
        lemma_letter_count_multiset(s1.drop_last(), s2.remove(j), i);
        lemma_letter_count_remove(s2, j, i);
    }
}

/// The letter account is invariant under any reordering of characters
/// within either input: it depends only on the two character multisets.
pub proof fn lemma_account_reorder(a1: Seq<char>, b1: Seq<char>, a2: Seq<char>, b2: Seq<char>)
    requires
        a1.to_multiset() == a2.to_multiset(),
        b1.to_multiset() == b2.to_multiset(),
    ensures
        forall|i: int| account(a1, b1, i) == account(a2, b2, i),
{
    assert forall|i: int| account(a1, b1, i) == account(a2, b2, i) by {
        lemma_letter_count_multiset(a1, a2, i);
        lemma_letter_count_multiset(b1, b2, i);
    }
}

/// Computes the 26-slot letter account between two texts: each letter of
/// `a` lowers its slot by one, each letter of `b` raises its slot by one.
pub fn count_chars(a: &Vec<char>, b: &Vec<char>) -> (r: Vec<i32>)
    requires
        a@.len() <= MAX_TEXT,
        b@.len() <= MAX_TEXT,
    ensures
        r@.len() == 26,
        forall|i: int| 0 <= i < 26 ==> r@[i] == account(a@, b@, i),
{
    let mut counts: Vec<i32> = Vec::new();
    let mut k: usize = 0;
    while k < 26
        invariant
            k <= 26,
            counts@.len() == k,
            forall|i: int| 0 <= i < k ==> counts@[i] == 0,
        decreases 26 - k,
    {
        counts.push(0);
        k = k + 1;
    }

    let mut ia: usize = 0;
    while ia < a.len()
        invariant
            ia <= a@.len(),
            a@.len() <= MAX_TEXT,
            counts@.len() == 26,
            forall|i: int| 0 <= i < 26 ==> counts@[i] == -letter_count(a@.take(ia as int), i),
        decreases a@.len() - ia,
    {
        let c = a[ia];
        proof {
            assert(a@.take(ia as int + 1).drop_last() =~= a@.take(ia as int));
            assert forall|i: int| 0 <= i < 26 implies
                0 <= #[trigger] letter_count(a@.take(ia as int), i) <= ia by {
                lemma_letter_count_nonneg(a@.take(ia as int), i);
            }
        }
        if ('a' <= c && c <= 'z') || ('A' <= c && c <= 'Z') {
            let idx = letter_to_index(c);
            counts[idx] = counts[idx] - 1;
        }
        ia = ia + 1;
    }
    proof {
        assert(a@.take(a@.len() as int) =~= a@);
    }

    let mut ib: usize = 0;
    while ib < b.len()
        invariant
            ib <= b@.len(),
            a@.len() <= MAX_TEXT,
            b@.len() <= MAX_TEXT,
            counts@.len() == 26,
            forall|i: int| 0 <= i < 26 ==> counts@[i] == letter_count(b@.take(ib as int), i)
                - letter_count(a@, i),
        decreases b@.len() - ib,
    {
        let c = b[ib];
        proof {
            assert(b@.take(ib as int + 1).drop_last() =~= b@.take(ib as int));
            assert forall|i: int| 0 <= i < 26 implies
                0 <= #[trigger] letter_count(b@.take(ib as int), i) <= ib
                && 0 <= letter_count(a@, i) <= a@.len() by {
                lemma_letter_count_nonneg(b@.take(ib as int), i);
                lemma_letter_count_nonneg(a@, i);
            }
        }
        if ('a' <= c && c <= 'z') || ('A' <= c && c <= 'Z') {
            let idx = letter_to_index(c);
            counts[idx] = counts[idx] + 1;
        }
        ib = ib + 1;
    }
    proof {
        assert(b@.take(b@.len() as int) =~= b@);
    }
    counts
}

} // verus!
