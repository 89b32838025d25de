//! The fuzzy matching and ranking engine.
//!
//! `fuzzy_match_simple` answers only whether the pattern occurs as a
//! case-insensitive ordered subsequence of the document.  `fuzzy_match`
//! makes a single forward scan over the document, tracking progress through
//! the pattern, and returns a match flag, an integer relevance score built
//! from the bonus and penalty policy below, and the document positions the
//! match consumed.  Both are total: empty inputs simply do not match, and no
//! input raises an error.
//!
//! The scan is modelled by `scan_step`/`scan_upto`, a state machine whose
//! state carries the running score, the rolling boundary predicates, and the
//! one-slot lookahead: a held candidate position for the most recent pattern
//! character, kept uncommitted so that a later, better-scoring occurrence of
//! the same character can replace it.  The executable engine returns exactly
//! `spec_fuzzy_match` of its inputs.

use vstd::prelude::*;

use crate::casefold::char_is_lower;
use crate::casefold::char_is_upper;
use crate::casefold::char_seq_eq;
use crate::casefold::char_to_lower;
use crate::casefold::chars_of;
use crate::casefold::fold_chars;
use crate::casefold::fold_lower;
use crate::casefold::folded_equal;
use crate::casefold::is_lower_char;
use crate::casefold::is_upper_char;
use crate::casefold::lower_of;
use crate::subseq::has_embedding;
use crate::subseq::is_subsequence;

verus! {

/// Bonus when the previous document character was part of the match.
pub const ADJACENCY_BONUS: i32 = 5;

/// Bonus when the match sits right after a separator or at the start.
pub const SEPARATOR_BONUS: i32 = 10;

/// Bonus when the match sits on a lowercase-to-uppercase boundary.
pub const CAMEL_BONUS: i32 = 10;

/// Penalty per document character skipped before the first match.
pub const LEADING_LETTER_PENALTY: i32 = -3;

/// Floor for the accumulated leading-letter penalty.
pub const MAX_LEADING_LETTER_PENALTY: i32 = -9;

/// Penalty for a consumed document character that ends up unmatched.
pub const UNMATCHED_LETTER_PENALTY: i32 = -1;

/// Largest document length the engine accepts; keeps the 32-bit score free
/// of overflow, since no scan moves the score by more than 25 per character.
pub const MAX_DOCUMENT_LEN: usize = 0x0400_0000;

/// Separator characters for the separator bonus.
pub open spec fn is_separator(c: char) -> bool {
    c == '_' || c == ' '
}

/// The held candidate: a provisionally matched document character, not yet
/// committed to the score and index list.
pub ghost struct HeldCandidate {
    /// Lowercase mapping of the candidate's document character.
    pub lower: Seq<char>,
    /// The candidate's document position.
    pub idx: int,
    /// Its provisional score contribution.
    pub score: int,
}

/// The scan state after some prefix of the document has been consumed.
pub ghost struct ScanState {
    /// Accumulated, committed score.
    pub score: int,
    /// Whether the previous document character took part in a match.
    pub prev_matched: bool,
    /// Whether the previous document character was lowercase.
    pub prev_lower: bool,
    /// Whether the previous document character was a separator (true at the
    /// start of the document, so a first-character match earns the bonus).
    pub prev_separator: bool,
    /// The one-slot lookahead buffer.
    pub held: Option<HeldCandidate>,
    /// Document positions committed to the match so far, in order.
    pub committed: Seq<int>,
    /// How many pattern characters have been matched so far.
    pub pidx: int,
}

pub open spec fn initial_state() -> ScanState {
    ScanState {
        score: 0,
        prev_matched: false,
        prev_lower: false,
        prev_separator: true,
        held: Option::None,
        committed: Seq::empty(),
        pidx: 0,
    }
}

/// The leading-letter penalty for a first match at document position `didx`:
/// proportional to the skipped prefix, clamped at the floor.
pub open spec fn leading_penalty(didx: int) -> int {
    if (LEADING_LETTER_PENALTY as int) * didx >= MAX_LEADING_LETTER_PENALTY as int {
        (LEADING_LETTER_PENALTY as int) * didx
    } else {
        MAX_LEADING_LETTER_PENALTY as int
    }
}

/// One scan step: consume document character `c` at position `didx`.
/// Requires `0 <= s.pidx < p.len()`: the scan stops once the pattern is
/// fully consumed.
pub open spec fn scan_step(p: Seq<char>, s: ScanState, c: char, didx: int) -> ScanState {
    let c_low = lower_of(c);
    let p_low = lower_of(p[s.pidx]);
    let next_match = p_low == c_low;
    let rematch = s.held is Some && s.held->0.lower == c_low;
    let pattern_repeat = s.held is Some && s.held->0.lower == p_low;
    let advanced = s.held is Some && next_match;
    let committed1 = if advanced || pattern_repeat {
        s.committed.push(s.held->0.idx)
    } else {
        s.committed
    };
    let score1 = if advanced || pattern_repeat {
        s.score + s.held->0.score
    } else {
        s.score
    };
    let held1: Option<HeldCandidate> = if advanced || pattern_repeat {
        Option::None
    } else {
        s.held
    };
    if next_match || rematch {
        let score2 = if s.pidx == 0 {
            score1 + leading_penalty(didx)
        } else {
            score1
        };
        let new_score = (if s.prev_matched {
            ADJACENCY_BONUS as int
        } else {
            0
        }) + (if s.prev_separator {
            SEPARATOR_BONUS as int
        } else {
            0
        }) + (if s.prev_lower && is_upper_char(c) {
            CAMEL_BONUS as int
        } else {
            0
        });
        let held_score = if held1 is Some {
            held1->0.score
        } else {
            0
        };
        let score3 = if new_score >= held_score && held1 is Some {
            score2 + UNMATCHED_LETTER_PENALTY as int
        } else {
            score2
        };
        let held2 = if new_score >= held_score {
            Option::Some(HeldCandidate { lower: c_low, idx: didx, score: new_score })
        } else {
            held1
        };
        ScanState {
            score: score3,
            prev_matched: true,
            prev_lower: is_lower_char(c),
            prev_separator: is_separator(c),
            held: held2,
            committed: committed1,
            pidx: if next_match {
                s.pidx + 1
            } else {
                s.pidx
            },
        }
    } else {
        ScanState {
            score: score1 + UNMATCHED_LETTER_PENALTY as int,
            prev_matched: false,
            prev_lower: is_lower_char(c),
            prev_separator: is_separator(c),
            held: held1,
            committed: committed1,
            pidx: s.pidx,
        }
    }
}

/// The scan state after the first `n` document characters, stopping early
/// once the pattern is fully consumed.
pub open spec fn scan_upto(p: Seq<char>, d: Seq<char>, n: int) -> ScanState
    decreases n,
{
    if n <= 0 {
        initial_state()
    } else {
        let s = scan_upto(p, d, n - 1);
        if s.pidx == p.len() {
            s
        } else {
            scan_step(p, s, d[n - 1], n - 1)
        }
    }
}

/// Commit a still-held candidate once the scan has ended.
pub open spec fn commit_remaining(s: ScanState) -> (int, Seq<int>) {
    match s.held {
        Option::Some(h) => (s.score + h.score, s.committed.push(h.idx)),
        Option::None => (s.score, s.committed),
    }
}

/// What `fuzzy_match` returns: the match flag, the score, and the committed
/// document positions.
pub open spec fn spec_fuzzy_match(p: Seq<char>, d: Seq<char>) -> (bool, int, Seq<int>) {
    if p.len() == 0 || d.len() == 0 {
        (false, 0, Seq::empty())
    } else {
        let s = scan_upto(p, d, d.len() as int);
        let fin = commit_remaining(s);
        (s.pidx == p.len(), fin.0, fin.1)
    }
}

/// What `fuzzy_match_simple` returns: nonempty inputs whose case-folded
/// pattern is an ordered subsequence of the case-folded document.
pub open spec fn spec_fuzzy_match_simple(p: Seq<char>, d: Seq<char>) -> bool {
    p.len() > 0 && d.len() > 0 && is_subsequence(fold_lower(p), fold_lower(d))
}

/// Well-formedness of the scan state after `n` document characters: the
/// committed positions are strictly increasing, lie before `n`, and carry
/// the case-folded pattern prefix character for character; a held candidate
/// extends that witness; the score stays within fixed linear bounds.
pub open spec fn wf_state(p: Seq<char>, d: Seq<char>, s: ScanState, n: int) -> bool {
    &&& 0 <= s.pidx <= p.len()
    &&& s.committed.len() == (if s.held is Some {
        s.pidx - 1
    } else {
        s.pidx
    })
    &&& (forall|k1: int, k2: int|
        #![trigger s.committed[k1], s.committed[k2]]
        0 <= k1 < k2 < s.committed.len() ==> s.committed[k1] < s.committed[k2])
    &&& (forall|k: int| 0 <= k < s.committed.len() ==> 0 <= #[trigger] s.committed[k] < n)
    &&& (forall|k: int|
        0 <= k < s.committed.len() ==> lower_of(d[#[trigger] s.committed[k]]) == lower_of(
            p[k],
        ))
    &&& (s.held is Some ==> {
        &&& s.pidx >= 1
        &&& 0 <= s.held->0.idx < n
        &&& (s.committed.len() > 0 ==> s.committed[s.committed.len() - 1] < s.held->0.idx)
        &&& s.held->0.lower == lower_of(d[s.held->0.idx])
        &&& s.held->0.lower == lower_of(p[s.pidx - 1])
        &&& 0 <= s.held->0.score <= 25
    })
    &&& (-11) * n <= s.score <= 25 * n
}

/// One scan step preserves well-formedness.
pub proof fn lemma_scan_step_wf(p: Seq<char>, d: Seq<char>, s: ScanState, n: int)
    requires
        wf_state(p, d, s, n),
        0 <= s.pidx < p.len(),
        0 <= n < d.len(),
    ensures
        wf_state(p, d, scan_step(p, s, d[n], n), n + 1),
{
    let c = d[n];
    let c_low = lower_of(c);
    let p_low = lower_of(p[s.pidx]);
    let next_match = p_low == c_low;
    let rematch = s.held is Some && s.held->0.lower == c_low;
    let pattern_repeat = s.held is Some && s.held->0.lower == p_low;
    let advanced = s.held is Some && next_match;
    let commit = advanced || pattern_repeat;
    let committed1 = if commit {
        s.committed.push(s.held->0.idx)
    } else {
        s.committed
    };
    assert((-9) <= leading_penalty(n) <= 0);
    if commit {
        let h = s.held->0;
        assert(committed1[committed1.len() - 1] == h.idx);
        assert forall|k1: int, k2: int|
            #![trigger committed1[k1], committed1[k2]]
            0 <= k1 < k2 < committed1.len() implies committed1[k1] < committed1[k2] by {
            if k2 == committed1.len() - 1 {
                if k1 < s.committed.len() - 1 {
                    assert(s.committed[k1] < s.committed[s.committed.len() - 1]);
                }
            }
        }
        assert(lower_of(d[h.idx]) == lower_of(p[s.pidx - 1]));
    }
    let s2 = scan_step(p, s, c, n);
    assert(s2.committed == committed1);
    assert forall|k: int| 0 <= k < s2.committed.len() implies lower_of(
        d[#[trigger] s2.committed[k]],
    ) == lower_of(p[k]) by {
        if k < s.committed.len() {
        } else {
            assert(s2.committed[k] == s.held->0.idx);
        }
    }
}

/// Every scan prefix is well-formed.
pub proof fn lemma_scan_upto_wf(p: Seq<char>, d: Seq<char>, n: int)
    requires
        0 <= n <= d.len(),
    ensures
        wf_state(p, d, scan_upto(p, d, n), n),
    decreases n,
{
    if n == 0 {
    } else {
        lemma_scan_upto_wf(p, d, n - 1);
        let s = scan_upto(p, d, n - 1);
        if s.pidx == p.len() {
            assert(wf_state(p, d, s, n));
        } else {
            lemma_scan_step_wf(p, d, s, n - 1);
        }
    }
}

/// Once the pattern is fully consumed, the scan state no longer changes.
pub proof fn lemma_scan_upto_stable(p: Seq<char>, d: Seq<char>, n: int, m: int)
    requires
        0 <= n <= m,
        scan_upto(p, d, n).pidx == p.len(),
    ensures
        scan_upto(p, d, m) == scan_upto(p, d, n),
    decreases m,
{
    if m > n {
        lemma_scan_upto_stable(p, d, n, m - 1);
    }
}

/// The one-slot lookahead buffer of the executable scan: a provisionally
/// matched document character, its position and provisional score.
pub struct Candidate {
    /// Lowercase mapping of the candidate's document character.
    pub lower: Vec<char>,
    /// The candidate's document position.
    pub idx: usize,
    /// Its provisional score contribution.
    pub score: i32,
}

impl View for Candidate {
    type V = HeldCandidate;

    open spec fn view(&self) -> HeldCandidate {
        HeldCandidate { lower: self.lower@, idx: self.idx as int, score: self.score as int }
    }
}

/// The abstraction of the executable lookahead slot.
pub open spec fn held_view(h: Option<Candidate>) -> Option<HeldCandidate> {
    match h {
        Option::Some(cand) => Option::Some(cand@),
        Option::None => Option::None,
    }
}

/// Is the pattern a case-insensitive ordered subsequence of the document?
/// Cheaper pre-filter for `fuzzy_match`: no scoring, no index tracking.
/// Empty inputs never match.
pub fn fuzzy_match_simple(pattern: &str, document: &str) -> (r: bool)
    ensures
        r == spec_fuzzy_match_simple(pattern@, document@),
        r == (pattern@.len() > 0 && document@.len() > 0 && has_embedding(
            fold_lower(pattern@),
            fold_lower(document@),
        )),
{
    let p = chars_of(pattern);
    let d = chars_of(document);
    if p.len() == 0 || d.len() == 0 {
        return false;
    }
    let fp = fold_chars(&p);
    let fd = fold_chars(&d);
    proof {
        assert(fp@.skip(0) =~= fp@);
        assert(fd@.skip(0) =~= fd@);
    }
    let mut i: usize = 0;
    let mut j: usize = 0;
    while i < fd.len() && j < fp.len()
        invariant
            i <= fd@.len(),
            j <= fp@.len(),
            is_subsequence(fp@, fd@) == is_subsequence(
                fp@.skip(j as int),
                fd@.skip(i as int),
            ),
        decreases fd@.len() - i,
    {
        if fp[j] == fd[i] {
            proof {
                assert(fp@.skip(j as int)[0] == fp@[j as int]);
                assert(fd@.skip(i as int)[0] == fd@[i as int]);
                assert(fp@.skip(j as int).skip(1) =~= fp@.skip(j + 1 as int));
                assert(fd@.skip(i as int).skip(1) =~= fd@.skip(i + 1 as int));
            }
            j += 1;
        } else {
            proof {
                assert(fp@.skip(j as int).len() > 0);
                assert(fd@.skip(i as int).skip(1) =~= fd@.skip(i + 1 as int));
            }
        }
        i += 1;
    }
    proof {
        if j == fp@.len() {
            assert(fp@.skip(j as int).len() == 0);
        } else {
            assert(fd@.skip(i as int).len() == 0);
            assert(fp@.skip(j as int).len() > 0);
        }
        if is_subsequence(fp@, fd@) {
            crate::subseq::lemma_subsequence_implies_embedding(fp@, fd@);
        }
        if has_embedding(fp@, fd@) {
            crate::subseq::lemma_embedding_implies_subsequence(fp@, fd@);
        }
    }
    j == fp.len()
}

/// Score the pattern against the document in one forward scan.
///
/// Returns `(matched, score, matched_indices)`, exactly the finalization of
/// the `scan_upto` state machine: whether the whole pattern was consumed as
/// a case-insensitive ordered subsequence, the accumulated bonus/penalty
/// score, and the strictly increasing document positions the match used,
/// one per pattern character.  Empty inputs yield `(false, 0, [])`.  The
/// document-length bound only keeps the 32-bit score arithmetic exact.
pub fn fuzzy_match(pattern: &str, document: &str) -> (r: (bool, i32, Vec<usize>))
    requires
        document@.len() <= MAX_DOCUMENT_LEN,
    ensures
        r.0 == spec_fuzzy_match(pattern@, document@).0,
        r.1 as int == spec_fuzzy_match(pattern@, document@).1,
        r.2@.map_values(|u: usize| u as int) == spec_fuzzy_match(pattern@, document@).2,
        r.0 ==> r.2@.len() == pattern@.len(),
        forall|k1: int, k2: int|
            #![trigger r.2@[k1], r.2@[k2]]
            0 <= k1 < k2 < r.2@.len() ==> r.2@[k1] < r.2@[k2],
        forall|k: int| 0 <= k < r.2@.len() ==> (#[trigger] r.2@[k]) < document@.len(),
        (pattern@.len() == 0 || document@.len() == 0) ==> (!r.0 && r.1 == 0 && r.2@.len()
            == 0),
{
    let p = chars_of(pattern);
    let d = chars_of(document);
    if p.len() == 0 || d.len() == 0 {
        let empty: Vec<usize> = Vec::new();
        proof {
            assert(empty@.map_values(|u: usize| u as int) =~= Seq::<int>::empty());
        }
        return (false, 0, empty);
    }
    let mut score: i32 = 0;
    let mut prev_matched = false;
    let mut prev_lower = false;
    let mut prev_separator = true;
    let mut held: Option<Candidate> = Option::None;
    let mut committed: Vec<usize> = Vec::new();
    let mut pidx: usize = 0;
    let mut didx: usize = 0;
    proof {
        assert(committed@.map_values(|u: usize| u as int) =~= Seq::<int>::empty());
        assert(scan_upto(p@, d@, 0) == initial_state());
    }
    while didx < d.len() && pidx < p.len()
        invariant
            p@ == pattern@,
            d@ == document@,
            p@.len() > 0,
            0 < d@.len() <= MAX_DOCUMENT_LEN,
            didx <= d@.len(),
            pidx <= p@.len(),
            scan_upto(p@, d@, didx as int) == (ScanState {
                score: score as int,
                prev_matched: prev_matched,
                prev_lower: prev_lower,
                prev_separator: prev_separator,
                held: held_view(held),
                committed: committed@.map_values(|u: usize| u as int),
                pidx: pidx as int,
            }),
        decreases d@.len() - didx,
    {
        proof {
            lemma_scan_upto_wf(p@, d@, didx as int);
        }
        let ghost s_pre = scan_upto(p@, d@, didx as int);
        let c = d[didx];
        let c_low = char_to_lower(c);
        let ghost c_low_spec = c_low@;
        let p_low = char_to_lower(p[pidx]);
        let next_match = char_seq_eq(&p_low, &c_low);
        let rematch = match &held {
            Option::Some(b) => char_seq_eq(&b.lower, &c_low),
            Option::None => false,
        };
        let pattern_repeat = match &held {
            Option::Some(b) => char_seq_eq(&b.lower, &p_low),
            Option::None => false,
        };
        let advanced = held.is_some() && next_match;
        if advanced || pattern_repeat {
            match &held {
                Option::Some(b) => {
                    score = score + b.score;
                    committed.push(b.idx);
                    proof {
                        assert(committed@.map_values(|u: usize| u as int) =~= s_pre.committed.push(
                            b.idx as int,
                        ));
                    }
                },
                Option::None => {},
            }
            held = Option::None;
        }
        if next_match || rematch {
            if pidx == 0 {
                let lead: i32 = if didx >= 3 {
                    MAX_LEADING_LETTER_PENALTY
                } else {
                    LEADING_LETTER_PENALTY * (didx as i32)
                };
                proof {
                    assert(lead as int == leading_penalty(didx as int));
                }
                score = score + lead;
            }
            let mut new_score: i32 = 0;
            if prev_matched {
                new_score = new_score + ADJACENCY_BONUS;
            }
            if prev_separator {
                new_score = new_score + SEPARATOR_BONUS;
            }
            if prev_lower && char_is_upper(c) {
                new_score = new_score + CAMEL_BONUS;
            }
            let held_score: i32 = match &held {
                Option::Some(b) => b.score,
                Option::None => 0,
            };
            if new_score >= held_score {
                if held.is_some() {
                    score = score + UNMATCHED_LETTER_PENALTY;
                }
                held = Option::Some(Candidate { lower: c_low, idx: didx, score: new_score });
            }
            prev_matched = true;
            if next_match {
                pidx = pidx + 1;
            }
        } else {
            score = score + UNMATCHED_LETTER_PENALTY;
            prev_matched = false;
        }
        prev_lower = char_is_lower(c);
        prev_separator = c == '_' || c == ' ';
        didx = didx + 1;
        proof {
            assert(scan_upto(p@, d@, didx as int) == scan_step(
                p@,
                s_pre,
                d@[didx - 1],
                didx - 1,
            ));
            assert(scan_upto(p@, d@, didx as int) == (ScanState {
                score: score as int,
                prev_matched: prev_matched,
                prev_lower: prev_lower,
                prev_separator: prev_separator,
                held: held_view(held),
                committed: committed@.map_values(|u: usize| u as int),
                pidx: pidx as int,
            }));
        }
    }
    proof {
        lemma_scan_upto_wf(p@, d@, didx as int);
        if pidx as int == p@.len() {
            lemma_scan_upto_stable(p@, d@, didx as int, d@.len() as int);
        }
        assert(scan_upto(p@, d@, d@.len() as int) == scan_upto(p@, d@, didx as int));
    }
    let ghost s_end = scan_upto(p@, d@, d@.len() as int);
    let matched = pidx == p.len();
    match held {
        Option::Some(b) => {
            score = score + b.score;
            committed.push(b.idx);
            proof {
                assert(committed@.map_values(|u: usize| u as int) =~= s_end.committed.push(
                    b.idx as int,
                ));
            }
        },
        Option::None => {},
    }
    proof {
        let fin = commit_remaining(s_end);
        assert(score as int == fin.0);
        assert(committed@.map_values(|u: usize| u as int) == fin.1);
        let m = committed@.map_values(|u: usize| u as int);
        assert forall|k1: int, k2: int|
            #![trigger committed@[k1], committed@[k2]]
            0 <= k1 < k2 < committed@.len() implies committed@[k1] < committed@[k2] by {
            if k2 == m.len() - 1 && s_end.held is Some {
                if k1 < s_end.committed.len() - 1 {
                    assert(s_end.committed[k1] < s_end.committed[s_end.committed.len() - 1]);
                }
                assert(m[k2] == s_end.held->0.idx);
            }
            assert(m[k1] < m[k2]);
        }
        assert forall|k: int| 0 <= k < committed@.len() implies (#[trigger] committed@[k])
            < d@.len() by {
            assert(0 <= m[k] < d@.len());
        }
    }
    (matched, score, committed)
}

/// Empty pattern or empty document: never a match, zero score, no indices,
/// for the scoring engine and the pre-filter alike.
pub proof fn lemma_empty_inputs(p: Seq<char>, d: Seq<char>)
    requires
        p.len() == 0 || d.len() == 0,
    ensures
        spec_fuzzy_match(p, d).0 == false,
        spec_fuzzy_match(p, d).1 == 0,
        spec_fuzzy_match(p, d).2 == Seq::<int>::empty(),
        spec_fuzzy_match_simple(p, d) == false,
{
}

/// A successful match consumes exactly one document position per pattern
/// character; the reported positions are strictly increasing and in range,
/// match or no match.
pub proof fn lemma_match_indices(p: Seq<char>, d: Seq<char>)
    ensures
        spec_fuzzy_match(p, d).0 ==> spec_fuzzy_match(p, d).2.len() == p.len(),
        forall|k1: int, k2: int|
            #![trigger spec_fuzzy_match(p, d).2[k1], spec_fuzzy_match(p, d).2[k2]]
            0 <= k1 < k2 < spec_fuzzy_match(p, d).2.len() ==> spec_fuzzy_match(p, d).2[k1]
                < spec_fuzzy_match(p, d).2[k2],
        forall|k: int|
            0 <= k < spec_fuzzy_match(p, d).2.len() ==> 0 <= #[trigger] spec_fuzzy_match(
                p,
                d,
            ).2[k] < d.len(),
{
    if p.len() == 0 || d.len() == 0 {
    } else {
        lemma_scan_upto_wf(p, d, d.len() as int);
        let s = scan_upto(p, d, d.len() as int);
        let m = spec_fuzzy_match(p, d).2;
        assert(m == commit_remaining(s).1);
        assert forall|k1: int, k2: int|
            #![trigger m[k1], m[k2]]
            0 <= k1 < k2 < m.len() implies m[k1] < m[k2] by {
            if k2 == m.len() - 1 && s.held is Some {
                if k1 < s.committed.len() - 1 {
                    assert(s.committed[k1] < s.committed[s.committed.len() - 1]);
                }
                assert(m[k2] == s.held->0.idx);
            }
        }
    }
}

/// Whenever the scoring engine reports a match, the committed positions
/// witness the pattern as a case-insensitive ordered subsequence, so the
/// cheaper pre-filter agrees; contrapositively, a `false` from the
/// pre-filter already rules the match out.
pub proof fn lemma_match_implies_simple(p: Seq<char>, d: Seq<char>)
    ensures
        spec_fuzzy_match(p, d).0 ==> spec_fuzzy_match_simple(p, d),
{
    if spec_fuzzy_match(p, d).0 {
        assert(p.len() > 0 && d.len() > 0);
        lemma_scan_upto_wf(p, d, d.len() as int);
        let s = scan_upto(p, d, d.len() as int);
        let w = commit_remaining(s).1;
        assert(w.len() == p.len());
        assert forall|k1: int, k2: int|
            #![trigger w[k1], w[k2]]
            0 <= k1 < k2 < w.len() implies w[k1] < w[k2] by {
            if k2 == w.len() - 1 && s.held is Some {
                if k1 < s.committed.len() - 1 {
                    assert(s.committed[k1] < s.committed[s.committed.len() - 1]);
                }
                assert(w[k2] == s.held->0.idx);
            }
        }
        assert forall|k: int| 0 <= k < w.len() implies 0 <= #[trigger] w[k] < d.len()
            && lower_of(d[w[k]]) == lower_of(p[k]) by {
            if s.held is Some && k == w.len() - 1 {
                assert(w[k] == s.held->0.idx);
                assert(lower_of(d[w[k]]) == lower_of(p[k]));
            }
        }
        crate::subseq::lemma_folded_witness_embedding(p, d, w);
        crate::subseq::lemma_embedding_implies_subsequence(fold_lower(p), fold_lower(d));
    }
}

/// The pattern cursor of the scan moves only on case-folded character
/// equality, so it is blind to case: two runs over inputs that agree up to
/// case track each other position for position.
pub proof fn lemma_scan_pidx_case_blind(
    p1: Seq<char>,
    d1: Seq<char>,
    p2: Seq<char>,
    d2: Seq<char>,
    n: int,
)
    requires
        folded_equal(p1, p2),
        folded_equal(d1, d2),
        0 <= n <= d1.len(),
    ensures
        scan_upto(p1, d1, n).pidx == scan_upto(p2, d2, n).pidx,
    decreases n,
{
    if n > 0 {
        lemma_scan_pidx_case_blind(p1, d1, p2, d2, n - 1);
        let s1 = scan_upto(p1, d1, n - 1);
        let s2 = scan_upto(p2, d2, n - 1);
        if s1.pidx == p1.len() {
        } else {
            lemma_scan_upto_wf(p1, d1, n - 1);
            lemma_scan_upto_wf(p2, d2, n - 1);
            assert(lower_of(d1[n - 1]) == lower_of(d2[n - 1]));
            assert(lower_of(p1[s1.pidx]) == lower_of(p2[s2.pidx]));
        }
    }
}

/// Matching is case-insensitive: whether the engine reports a match, and
/// whether the pre-filter accepts, depend only on the case-folded
/// characters of pattern and document.
pub proof fn lemma_match_case_insensitive(
    p1: Seq<char>,
    d1: Seq<char>,
    p2: Seq<char>,
    d2: Seq<char>,
)
    requires
        folded_equal(p1, p2),
        folded_equal(d1, d2),
    ensures
        spec_fuzzy_match(p1, d1).0 == spec_fuzzy_match(p2, d2).0,
        spec_fuzzy_match_simple(p1, d1) == spec_fuzzy_match_simple(p2, d2),
{
    if p1.len() == 0 || d1.len() == 0 {
    } else {
        lemma_scan_pidx_case_blind(p1, d1, p2, d2, d1.len() as int);
    }
    crate::casefold::lemma_fold_lower_congruence(p1, p2);
    crate::casefold::lemma_fold_lower_congruence(d1, d2);
}

/// The engine is a pure function of its two inputs: identical pattern and
/// document always produce the identical result triple.
pub proof fn lemma_deterministic(p1: Seq<char>, d1: Seq<char>, p2: Seq<char>, d2: Seq<char>)
    requires
        p1 == p2,
        d1 == d2,
    ensures
        spec_fuzzy_match(p1, d1) == spec_fuzzy_match(p2, d2),
        spec_fuzzy_match_simple(p1, d1) == spec_fuzzy_match_simple(p2, d2),
{
}

} // verus!

