//! The match engine: classifies every letter of a guess against the secret word,
//! with repeated letters handled so that each letter of the secret is claimed
//! by at most one letter of the guess.

use vstd::prelude::*;

verus! {

/// How one letter of a guess relates to the secret word.
#[derive(Clone, Copy, PartialEq, Eq, Debug, Structural)]
pub enum MatchType {
    /// The secret holds this letter at this very position.
    Perfect,
    /// The secret holds an unclaimed copy of this letter elsewhere.
    Partial,
    /// No unclaimed copy of this letter is left in the secret.
    Absent,
}

/// The classification of the letter at `index` of a guess.
#[derive(Clone, Copy)]
pub struct CharMatch {
    pub index: usize,
    pub character: char,
    pub match_type: MatchType,
}

/// Position `k` is an exact hit: guess and secret agree there.
pub open spec fn is_exact(secret: Seq<char>, guess: Seq<char>, k: int) -> bool {
    secret[k] == guess[k]
}

/// Number of positions below `n` where the secret holds `c` and is not hit
/// exactly: the copies of `c` that are left for partial matches.
pub open spec fn spare_in_secret(secret: Seq<char>, guess: Seq<char>, c: char, n: int) -> nat
    decreases n,
{
    if n <= 0 {
        0
    } else {
        spare_in_secret(secret, guess, c, n - 1) + if secret[n - 1] == c && !is_exact(
            secret,
            guess,
            n - 1,
        ) {
            1nat
        } else {
            0nat
        }
    }
}

/// Number of positions below `n` where the guess holds `c` without hitting
/// the secret exactly.
pub open spec fn misplaced_in_guess(secret: Seq<char>, guess: Seq<char>, c: char, n: int) -> nat
    decreases n,
{
    if n <= 0 {
        0
    } else {
        misplaced_in_guess(secret, guess, c, n - 1) + if guess[n - 1] == c && !is_exact(
            secret,
            guess,
            n - 1,
        ) {
            1nat
        } else {
            0nat
        }
    }
}

/// The classification of position `i` of `guess`: exact hits first; then, in
/// position order, each other letter takes a spare copy of itself in the
/// secret while one is left.
pub open spec fn match_at(secret: Seq<char>, guess: Seq<char>, i: int) -> MatchType {
    if is_exact(secret, guess, i) {
        MatchType::Perfect
    } else if misplaced_in_guess(secret, guess, guess[i], i) < spare_in_secret(
        secret,
        guess,
        guess[i],
        secret.len() as int,
    ) {
        MatchType::Partial
    } else {
        MatchType::Absent
    }
}

/// The classifications of all positions of `guess`, in order.
pub open spec fn matches(secret: Seq<char>, guess: Seq<char>) -> Seq<MatchType> {
    Seq::new(guess.len(), |i: int| match_at(secret, guess, i))
}

/// `ms` classifies `guess` against `secret`, one entry per position, in order.
pub open spec fn classifies(ms: Seq<CharMatch>, secret: Seq<char>, guess: Seq<char>) -> bool {
    &&& ms.len() == guess.len()
    &&& forall|i: int|
        0 <= i < ms.len() ==> {
            &&& (#[trigger] ms[i]).index == i
            &&& ms[i].character == guess[i]
            &&& ms[i].match_type == match_at(secret, guess, i)
        }
}

/// Number of positions below `n` where the secret holds `c`, is not hit
/// exactly, and has been claimed by a partial match.
pub open spec fn claimed_spare(
    secret: Seq<char>,
    guess: Seq<char>,
    claimed: Seq<bool>,
    c: char,
    n: int,
) -> nat
    decreases n,
{
    if n <= 0 {
        0
    } else {
        claimed_spare(secret, guess, claimed, c, n - 1) + if secret[n - 1] == c && !is_exact(
            secret,
            guess,
            n - 1,
        ) && claimed[n - 1] {
            1nat
        } else {
            0nat
        }
    }
}

proof fn lemma_claimed_none(secret: Seq<char>, guess: Seq<char>, claimed: Seq<bool>, c: char, n: int)
    requires
        0 <= n <= secret.len(),
        secret.len() == guess.len(),
        claimed.len() == secret.len(),
        forall|k: int| 0 <= k < n && #[trigger] claimed[k] ==> is_exact(secret, guess, k),
    ensures
        claimed_spare(secret, guess, claimed, c, n) == 0,
    decreases n,
{
    if n > 0 {
        lemma_claimed_none(secret, guess, claimed, c, n - 1);
    }
}

proof fn lemma_claimed_bounded(secret: Seq<char>, guess: Seq<char>, claimed: Seq<bool>, c: char, n: int)
    requires
        0 <= n <= secret.len(),
        secret.len() == guess.len(),
        claimed.len() == secret.len(),
    ensures
        claimed_spare(secret, guess, claimed, c, n) <= spare_in_secret(secret, guess, c, n),
        claimed_spare(secret, guess, claimed, c, n) == spare_in_secret(secret, guess, c, n)
            <==> forall|k: int|
            0 <= k < n && secret[k] == c && !is_exact(secret, guess, k) ==> #[trigger] claimed[k],
    decreases n,
{
    if n > 0 {
        lemma_claimed_bounded(secret, guess, claimed, c, n - 1);
        let last = n - 1;
        if claimed_spare(secret, guess, claimed, c, n) == spare_in_secret(secret, guess, c, n) {
            assert forall|k: int|
                0 <= k < n && secret[k] == c && !is_exact(secret, guess, k) implies #[trigger] claimed[k] by {
                if k < last {
                    assert(claimed_spare(secret, guess, claimed, c, last) == spare_in_secret(
                        secret,
                        guess,
                        c,
                        last,
                    ));
                }
            }
        } else if claimed_spare(secret, guess, claimed, c, last) == spare_in_secret(
            secret,
            guess,
            c,
            last,
        ) {
            assert(!claimed[last] && secret[last] == c && !is_exact(secret, guess, last));
        } else {
            let k = choose|k: int|
                0 <= k < last && secret[k] == c && !is_exact(secret, guess, k) && !#[trigger] claimed[k];
            assert(0 <= k < n && secret[k] == c && !is_exact(secret, guess, k) && !claimed[k]);
        }
    }
}

proof fn lemma_claim_one(
    secret: Seq<char>,
    guess: Seq<char>,
    claimed: Seq<bool>,
    j: int,
    c: char,
    n: int,
)
    requires
        0 <= n <= secret.len(),
        secret.len() == guess.len(),
        claimed.len() == secret.len(),
        0 <= j < secret.len(),
        !claimed[j],
    ensures
        claimed_spare(secret, guess, claimed.update(j, true), c, n) == claimed_spare(
            secret,
            guess,
            claimed,
            c,
            n,
        ) + if j < n && secret[j] == c && !is_exact(secret, guess, j) {
            1nat
        } else {
            0nat
        },
    decreases n,
{
    if n > 0 {
        lemma_claim_one(secret, guess, claimed, j, c, n - 1);
    }
}

/// First pass: marks the exact hits, claiming their letters of the secret;
/// every other position starts out absent and unclaimed.
fn exact_pass(secret: &Vec<char>, guess: &Vec<char>) -> (r: (Vec<bool>, Vec<MatchType>))
    requires
        secret@.len() == guess@.len(),
    ensures
        r.0@.len() == guess@.len(),
        r.1@.len() == guess@.len(),
        forall|k: int| 0 <= k < guess@.len() ==> #[trigger] r.0@[k] == is_exact(secret@, guess@, k),
        forall|k: int|
            0 <= k < guess@.len() ==> #[trigger] r.1@[k] == if is_exact(secret@, guess@, k) {
                MatchType::Perfect
            } else {
                MatchType::Absent
            },
{
    let n = guess.len();
    let mut claimed: Vec<bool> = Vec::new();
    let mut kinds: Vec<MatchType> = Vec::new();
    let mut i: usize = 0;
    while i < n
        invariant
            n == guess@.len(),
            secret@.len() == n,
            i <= n,
            claimed@.len() == i,
            kinds@.len() == i,
            forall|k: int| 0 <= k < i ==> #[trigger] claimed@[k] == is_exact(secret@, guess@, k),
            forall|k: int|
                0 <= k < i ==> #[trigger] kinds@[k] == if is_exact(secret@, guess@, k) {
                    MatchType::Perfect
                } else {
                    MatchType::Absent
                },
        decreases n - i,
    {
        if secret[i] == guess[i] {
            claimed.push(true);
            kinds.push(MatchType::Perfect);
        } else {
            claimed.push(false);
            kinds.push(MatchType::Absent);
        }
        i = i + 1;
    }
    (claimed, kinds)
}

/// Second pass: each position that is not an exact hit claims, in position
/// order, the first unclaimed copy of its letter in the secret, and is then a
/// partial match.
fn partial_pass(secret: &Vec<char>, guess: &Vec<char>, claimed: &mut Vec<bool>, kinds: &mut Vec<MatchType>)
    requires
        secret@.len() == guess@.len(),
        old(claimed)@.len() == guess@.len(),
        old(kinds)@.len() == guess@.len(),
        forall|k: int|
            0 <= k < guess@.len() ==> #[trigger] old(claimed)@[k] == is_exact(secret@, guess@, k),
        forall|k: int|
            0 <= k < guess@.len() ==> #[trigger] old(kinds)@[k] == if is_exact(secret@, guess@, k) {
                MatchType::Perfect
            } else {
                MatchType::Absent
            },
    ensures
        final(kinds)@ == matches(secret@, guess@),
{
    let n = guess.len();
    let ghost s = secret@;
    let ghost g = guess@;
    assert forall|c: char| #[trigger] claimed_spare(s, g, claimed@, c, n as int) == 0 by {
        lemma_claimed_none(s, g, claimed@, c, n as int);
    }
    let mut i: usize = 0;
    while i < n
        invariant
            n == g.len(),
            s == secret@,
            g == guess@,
            s.len() == n,
            i <= n,
            claimed@.len() == n,
            kinds@.len() == n,
            forall|k: int| 0 <= k < n && is_exact(s, g, k) ==> #[trigger] claimed@[k],
            forall|c: char|
                #[trigger] claimed_spare(s, g, claimed@, c, n as int) == if misplaced_in_guess(
                    s,
                    g,
                    c,
                    i as int,
                ) < spare_in_secret(s, g, c, n as int) {
                    misplaced_in_guess(s, g, c, i as int)
                } else {
                    spare_in_secret(s, g, c, n as int)
                },
            forall|k: int|
                0 <= k < n ==> #[trigger] kinds@[k] == if k < i || is_exact(s, g, k) {
                    match_at(s, g, k)
                } else {
                    MatchType::Absent
                },
        decreases n - i,
    {
        let c = guess[i];
        let ghost before = claimed@;
        proof {
            assert forall|d: char|
                d != c || is_exact(s, g, i as int) implies #[trigger] misplaced_in_guess(
                s,
                g,
                d,
                i + 1,
            ) == misplaced_in_guess(s, g, d, i as int) by {}
        }
        // a position still marked absent was not used by the first pass
        if kinds[i] == MatchType::Absent {
            // look for the first unclaimed copy of `c` in the secret
            let mut j: usize = 0;
            while j < n && (claimed[j] || secret[j] != c)
                invariant
                    n == s.len(),
                    s == secret@,
                    claimed@.len() == n,
                    j <= n,
                    forall|k: int| 0 <= k < j ==> #[trigger] claimed@[k] || s[k] != c,
                decreases n - j,
            {
                j = j + 1;
            }
            proof {
                lemma_claimed_bounded(s, g, before, c, n as int);
            }
            if j < n {
                assert(!is_exact(s, g, j as int));
                assert(claimed_spare(s, g, before, c, n as int) < spare_in_secret(s, g, c, n as int));
                assert(misplaced_in_guess(s, g, c, i + 1) == misplaced_in_guess(s, g, c, i as int) + 1);
                assert(match_at(s, g, i as int) == MatchType::Partial);
                claimed.set(j, true);
                kinds.set(i, MatchType::Partial);
                proof {
                    assert forall|d: char| #[trigger]
                        claimed_spare(s, g, claimed@, d, n as int) == claimed_spare(
                            s,
                            g,
                            before,
                            d,
                            n as int,
                        ) + if d == c {
                            1nat
                        } else {
                            0nat
                        } by {
                        lemma_claim_one(s, g, before, j as int, d, n as int);
                    }
                }
            } else {
                assert(claimed_spare(s, g, before, c, n as int) == spare_in_secret(s, g, c, n as int));
                assert(misplaced_in_guess(s, g, c, i + 1) == misplaced_in_guess(s, g, c, i as int) + 1);
                assert(match_at(s, g, i as int) == MatchType::Absent);
            }
        }
        assert(kinds@[i as int] == match_at(s, g, i as int));
        i = i + 1;
    }
    assert(kinds@ =~= matches(s, g));
}

/// Classifies every letter of `guess` against `secret`: exact hits first,
/// then partial matches, each of which claims the first unclaimed copy of its
/// letter in the secret.
pub fn match_chars(secret: &Vec<char>, guess: &Vec<char>) -> (r: Vec<CharMatch>)
    requires
        secret@.len() == guess@.len(),
    ensures
        classifies(r@, secret@, guess@),
{
    let (mut claimed, mut kinds) = exact_pass(secret, guess);
    partial_pass(secret, guess, &mut claimed, &mut kinds);
    let n = guess.len();
    let mut evaluation: Vec<CharMatch> = Vec::new();
    let mut i: usize = 0;
    while i < n
        invariant
            n == guess@.len(),
            kinds@ == matches(secret@, guess@),
            i <= n,
            evaluation@.len() == i,
            forall|k: int|
                0 <= k < i ==> {
                    &&& (#[trigger] evaluation@[k]).index == k
                    &&& evaluation@[k].character == guess@[k]
                    &&& evaluation@[k].match_type == match_at(secret@, guess@, k)
                },
        decreases n - i,
    {
        let character = guess[i];
        let match_type = kinds[i];
        let entry = CharMatch { index: i, character, match_type };
        let ghost prefix = evaluation@;
        evaluation.push(entry);
        // the facts about the pushed entry are not found unaided here
        proof {
            vstd::seq::axiom_seq_push_len(prefix, entry);
            assert forall|k: int| 0 <= k < i implies evaluation@[k] == prefix[k] by {
                vstd::seq::axiom_seq_push_index_different(prefix, entry, k);
            }
            vstd::seq::axiom_seq_push_index_same(prefix, entry, i as int);
        }
        i = i + 1;
    }
    evaluation
}

/// Number of positions below `n` where `s` holds `c`.
pub open spec fn occurrences(s: Seq<char>, c: char, n: int) -> nat
    decreases n,
{
    if n <= 0 {
        0
    } else {
        occurrences(s, c, n - 1) + if s[n - 1] == c {
            1nat
        } else {
            0nat
        }
    }
}

/// Number of positions below `n` where the guess holds `c` and is classified
/// as a perfect or a partial match.
pub open spec fn hits(secret: Seq<char>, guess: Seq<char>, c: char, n: int) -> nat
    decreases n,
{
    if n <= 0 {
        0
    } else {
        hits(secret, guess, c, n - 1) + if guess[n - 1] == c && match_at(secret, guess, n - 1)
            != MatchType::Absent {
            1nat
        } else {
            0nat
        }
    }
}

/// Number of positions below `n` where both words hold `c`.
pub open spec fn exact_hits(secret: Seq<char>, guess: Seq<char>, c: char, n: int) -> nat
    decreases n,
{
    if n <= 0 {
        0
    } else {
        exact_hits(secret, guess, c, n - 1) + if guess[n - 1] == c && is_exact(
            secret,
            guess,
            n - 1,
        ) {
            1nat
        } else {
            0nat
        }
    }
}

proof fn lemma_occurrences_split(secret: Seq<char>, guess: Seq<char>, c: char, n: int)
    requires
        0 <= n <= secret.len(),
        secret.len() == guess.len(),
    ensures
        occurrences(secret, c, n) == exact_hits(secret, guess, c, n) + spare_in_secret(
            secret,
            guess,
            c,
            n,
        ),
    decreases n,
{
    if n > 0 {
        lemma_occurrences_split(secret, guess, c, n - 1);
    }
}

proof fn lemma_hits_split(secret: Seq<char>, guess: Seq<char>, c: char, m: int)
    requires
        0 <= m <= guess.len(),
        secret.len() == guess.len(),
    ensures
        hits(secret, guess, c, m) == exact_hits(secret, guess, c, m) + if misplaced_in_guess(
            secret,
            guess,
            c,
            m,
        ) < spare_in_secret(secret, guess, c, secret.len() as int) {
            misplaced_in_guess(secret, guess, c, m)
        } else {
            spare_in_secret(secret, guess, c, secret.len() as int)
        },
    decreases m,
{
    if m > 0 {
        lemma_hits_split(secret, guess, c, m - 1);
    }
}

/// However often a letter appears in the guess, the positions classified as
/// perfect or partial matches that hold it are never more than the copies of
/// it in the secret.
pub proof fn lemma_hits_within_secret(secret: Seq<char>, guess: Seq<char>, c: char)
    requires
        secret.len() == guess.len(),
    ensures
        hits(secret, guess, c, guess.len() as int) <= occurrences(secret, c, secret.len() as int),
{
    lemma_hits_split(secret, guess, c, guess.len() as int);
    lemma_occurrences_split(secret, guess, c, secret.len() as int);
}

/// A position where the guess agrees with the secret is always a perfect
/// match.
pub proof fn lemma_exact_is_perfect(secret: Seq<char>, guess: Seq<char>, i: int)
    requires
        secret.len() == guess.len(),
        0 <= i < guess.len(),
        guess[i] == secret[i],
    ensures
        matches(secret, guess)[i] == MatchType::Perfect,
{
}

/// The classification of a guess is determined by the secret and the guess
/// alone: any two classifications of the same pair are identical.
pub proof fn lemma_classification_unique(
    secret: Seq<char>,
    guess: Seq<char>,
    first: Seq<CharMatch>,
    second: Seq<CharMatch>,
)
    requires
        classifies(first, secret, guess),
        classifies(second, secret, guess),
    ensures
        first == second,
{
    assert(first =~= second);
}

/// The letters of `s`, one per entry.
pub fn chars_of(s: &str) -> (r: Vec<char>)
    ensures
        r@ == s@,
{
    let n = s.unicode_len();
    let mut r: Vec<char> = Vec::new();
    let mut i: usize = 0;
    while i < n
        invariant
            n == s@.len(),
            i <= n,
            r@ == s@.subrange(0, i as int),
        decreases n - i,
    {
        r.push(s.get_char(i));
        i = i + 1;
    }
    assert(r@ =~= s@);
    r
}

} // verus!
