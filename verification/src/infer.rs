//! The learned-inferencer boundary: the fixed feature-vector encoding of a
//! note set, the ranking of a model's scored output, and the decision policy
//! that blends the rule-based recognizer with the learned path. The model
//! itself — its file format, loading and scoring — is an external
//! collaborator; the policy here is verified for every output it may hand
//! back, and its failure always degrades to the rule-based ranking.

use vstd::prelude::*;

use crate::chord::{
    spec_pc_present, spec_recognize, spec_recognize_ranked, recognize_candidates, Chord,
};
use crate::errors::Error;
use crate::note::Note;

verus! {

/// The dimensionality of the feature vector: one slot per pitch class.
pub const FEATURE_DIM: usize = 12;

/// A chord together with the learned model's score for it.
#[derive(PartialEq, Eq, Structural, Clone, Copy, Debug)]
pub struct ScoredChord {
    /// The chord the model scored.
    pub chord: Chord,
    /// The model's score: higher means more plausible.
    pub score: u64,
}

/// A well-formed feature vector: twelve slots, each zero or one.
pub open spec fn spec_features_valid(f: Seq<u8>) -> bool {
    f.len() == 12 && forall|c: int| 0 <= c < 12 ==> #[trigger] f[c] == 0 || f[c] == 1
}

/// Encodes a note set as the model's fixed-size feature vector: slot `c`
/// is one exactly when pitch class `c` occurs among the notes.
pub fn encode_features(notes: &Vec<Note>) -> (r: Vec<u8>)
    ensures
        spec_features_valid(r@),
        forall|c: int| 0 <= c < 12 ==> (#[trigger] r@[c] == 1 <==> spec_pc_present(notes@, c)),
{
    let mut r: Vec<u8> = Vec::new();
    let mut c0: usize = 0;
    while c0 < FEATURE_DIM
        invariant
            c0 <= 12,
            r@.len() == c0 as int,
            forall|t: int| 0 <= t < c0 as int ==> #[trigger] r@[t] == 0,
        decreases 12 - c0,
    {
        r.push(0);
        c0 = c0 + 1;
    }
    let mut i: usize = 0;
    while i < notes.len()
        invariant
            i <= notes@.len(),
            r@.len() == 12,
            forall|t: int| 0 <= t < 12 ==> #[trigger] r@[t] == 0 || r@[t] == 1,
            forall|t: int| 0 <= t < 12 ==> (#[trigger] r@[t] == 1 <==> spec_pc_present(
                notes@.take(i as int), t)),
        decreases notes@.len() - i,
    {
        let pc = notes[i].pitch.index();
        r[pc as usize] = 1;
        proof {
            let prev = notes@.take(i as int);
            let cur = notes@.take(i as int + 1);
            assert(cur.drop_last() =~= prev);
            assert(cur.last() == notes@[i as int]);
            assert forall|t: int| 0 <= t < 12 implies (#[trigger] r@[t] == 1
                <==> spec_pc_present(cur, t))
            by {
                if r@[t] == 1 {
                    if t == pc as int {
                        assert(cur[i as int].pitch.spec_index() == t);
                    } else {
                        let w = choose|j: int| 0 <= j < prev.len()
                            && (#[trigger] prev[j]).pitch.spec_index() == t;
                        assert(cur[w] == prev[w]);
                    }
                } else {
                    if spec_pc_present(cur, t) {
                        let w = choose|j: int| 0 <= j < cur.len()
                            && (#[trigger] cur[j]).pitch.spec_index() == t;
                        if w < i as int {
                            assert(prev[w] == cur[w]);
                        } else {
                            assert(t == pc as int);
                        }
                        assert(false);
                    }
                }
            }
        }
        i = i + 1;
    }
    proof {
        assert(notes@.take(notes@.len() as int) =~= notes@);
    }
    r
}

/// Inserts a scored chord into a sequence sorted by descending score,
/// after every entry that scores at least as high.
pub open spec fn spec_insert_scored(s: Seq<ScoredChord>, c: ScoredChord) -> Seq<ScoredChord>
    decreases s.len(),
{
    if s.len() == 0 {
        seq![c]
    } else if c.score > s[0].score {
        seq![c] + s
    } else {
        seq![s[0]] + spec_insert_scored(s.drop_first(), c)
    }
}

/// The first `n` scored chords, sorted by descending score.
pub open spec fn spec_sort_scored_upto(s: Seq<ScoredChord>, n: int) -> Seq<ScoredChord>
    decreases n,
{
    if n <= 0 {
        Seq::empty()
    } else {
        spec_insert_scored(spec_sort_scored_upto(s, n - 1), s[n - 1])
    }
}

/// The model's output ranked by descending score (ties keep the model's
/// own order), reduced to the chords.
pub open spec fn spec_rank_by_score(s: Seq<ScoredChord>) -> Seq<Chord> {
    spec_sort_scored_upto(s, s.len() as int).map_values(|c: ScoredChord| c.chord)
}

/// Inserting at the first position whose score drops below the new entry's
/// is exactly the specification's insertion.
proof fn lemma_insert_scored_at(s: Seq<ScoredChord>, c: ScoredChord, i: int)
    requires
        0 <= i <= s.len(),
        forall|t: int| 0 <= t < i ==> !(c.score > (#[trigger] s[t]).score),
        i < s.len() ==> c.score > s[i].score,
    ensures
        spec_insert_scored(s, c) == s.insert(i, c),
    decreases s.len(),
{
    if s.len() == 0 {
        assert(s.insert(0, c) =~= seq![c]);
    } else if i == 0 {
        assert(s.insert(0, c) =~= seq![c] + s);
    } else {
        lemma_insert_scored_at(s.drop_first(), c, i - 1);
        assert(s.insert(i, c) =~= seq![s[0]] + s.drop_first().insert(i - 1, c));
    }
}

/// The boundary to the learned collaborator: takes the feature vector and
/// whatever scored output the model produced, and returns the model's
/// ranking. Fails with `InferenceUnavailable` — never a crash — when the
/// model is absent or the feature vector is malformed.
pub fn infer_chord(features: &Vec<u8>, model_output: Option<&Vec<ScoredChord>>) -> (r: Result<
    Vec<Chord>, Error>)
    ensures
        r is Ok <==> model_output is Some && spec_features_valid(features@),
        r is Err ==> r->Err_0 == Error::InferenceUnavailable,
        r is Ok ==> r->Ok_0@ == spec_rank_by_score(model_output->0@),
{
    if features.len() != FEATURE_DIM {
        return Err(Error::InferenceUnavailable);
    }
    let mut c: usize = 0;
    while c < FEATURE_DIM
        invariant
            c <= 12,
            features@.len() == 12,
            forall|t: int| 0 <= t < c as int ==> #[trigger] features@[t] == 0
                || features@[t] == 1,
        decreases 12 - c,
    {
        if features[c] > 1 {
            return Err(Error::InferenceUnavailable);
        }
        c = c + 1;
    }
    match model_output {
        None => Err(Error::InferenceUnavailable),
        Some(scored) => {
            let mut sorted: Vec<ScoredChord> = Vec::new();
            let mut n: usize = 0;
            while n < scored.len()
                invariant
                    n <= scored@.len(),
                    sorted@ == spec_sort_scored_upto(scored@, n as int),
                decreases scored@.len() - n,
            {
                let sc = scored[n];
                let mut idx: usize = 0;
                while idx < sorted.len() && !(sc.score > sorted[idx].score)
                    invariant
                        idx <= sorted@.len(),
                        sorted@ == spec_sort_scored_upto(scored@, n as int),
                        forall|t: int| 0 <= t < idx ==> !(sc.score
                            > (#[trigger] sorted@[t]).score),
                    decreases sorted@.len() - idx,
                {
                    idx = idx + 1;
                }
                proof {
                    lemma_insert_scored_at(sorted@, sc, idx as int);
                }
                sorted.insert(idx, sc);
                n = n + 1;
            }
            let mut out: Vec<Chord> = Vec::new();
            let mut i: usize = 0;
            while i < sorted.len()
                invariant
                    i <= sorted@.len(),
                    sorted@ == spec_sort_scored_upto(scored@, scored@.len() as int),
                    out@.len() == i as int,
                    forall|t: int| 0 <= t < i as int ==> #[trigger] out@[t]
                        == sorted@[t].chord,
                decreases sorted@.len() - i,
            {
                out.push(sorted[i].chord);
                i = i + 1;
            }
            proof {
                assert(out@ =~= spec_sort_scored_upto(scored@, scored@.len() as int)
                    .map_values(|c: ScoredChord| c.chord));
            }
            Ok(out)
        },
    }
}

/// What the blended decision policy returns: the rule-based ranking when it
/// is confident (its top match explains every observed pitch class) or when
/// the learned path is unavailable or silent; otherwise the model's ranking
/// of its scored output.
pub open spec fn spec_rank_chords(notes: Seq<Note>, m: Option<Seq<ScoredChord>>) -> Seq<Chord> {
    let rule = spec_recognize(notes);
    let ranked = spec_recognize_ranked(notes);
    if ranked.len() > 0 && ranked[0].extra == 0 {
        rule
    } else {
        match m {
            None => rule,
            Some(ms) => if spec_rank_by_score(ms).len() > 0 {
                spec_rank_by_score(ms)
            } else {
                rule
            },
        }
    }
}

/// The pipeline's chord-ranking policy. Consults the learned inferencer
/// only when the rule-based top candidate leaves observed tones
/// unexplained, and falls back to the rule-based ranking whenever the
/// inferencer is unavailable or returns nothing — so an absent model still
/// yields a valid ranking and never an error.
pub fn rank_chords(notes: &Vec<Note>, model_output: Option<&Vec<ScoredChord>>) -> (r: Vec<Chord>)
    ensures
        r@ == spec_rank_chords(notes@, match model_output {
            Some(m) => Some(m@),
            None => None,
        }),
        model_output is None ==> r@ == spec_recognize(notes@),
{
    let cands = recognize_candidates(notes);
    let confident: bool = cands.len() > 0 && cands[0].extra == 0;

    let mut rule: Vec<Chord> = Vec::new();
    let mut i: usize = 0;
    while i < cands.len()
        invariant
            i <= cands@.len(),
            cands@ == spec_recognize_ranked(notes@),
            rule@.len() == i as int,
            forall|t: int| 0 <= t < i as int ==> #[trigger] rule@[t] == cands@[t].chord,
        decreases cands@.len() - i,
    {
        rule.push(cands[i].chord);
        i = i + 1;
    }
    proof {
        assert(rule@ =~= spec_recognize_ranked(notes@).map_values(|c: crate::chord::ChordCandidate| c.chord));
    }

    if confident {
        return rule;
    }
    let features = encode_features(notes);
    match infer_chord(&features, model_output) {
        Ok(ranked) => {
            if ranked.len() > 0 {
                ranked
            } else {
                rule
            }
        },
        Err(_) => rule,
    }
}

} // verus!
