//! Comparing the primary's and the advisor's answers to the same task.
use vstd::prelude::*;
use vstd::set_lib::*;

use crate::chars;
use crate::chars::CharSet;
use crate::text;
use crate::types::{AgentChoice, MessageClass};

verus! {

/// Outcome of comparing two answers.
#[derive(Debug, Clone, Copy, PartialEq, Eq, Structural)]
pub enum DivergenceVerdict {
    /// The answers share enough words to count as equal.
    Match,
    /// The answers overlap but disagree on details.
    Close,
    /// The answers differ so much that the advisor's should be preferred.
    Divergent,
}

impl DivergenceVerdict {
    pub open spec fn name(self) -> Seq<char> {
        match self {
            DivergenceVerdict::Match => "Match"@,
            DivergenceVerdict::Close => "Close"@,
            DivergenceVerdict::Divergent => "Divergent"@,
        }
    }

    pub fn label(&self) -> (r: &'static str)
        ensures
            r@ == self.name(),
    {
        match self {
            DivergenceVerdict::Match => "Match",
            DivergenceVerdict::Close => "Close",
            DivergenceVerdict::Divergent => "Divergent",
        }
    }
}

/// Two answers and how they compare. The similarity is `shared` over `total`;
/// where there are no words at all it is one.
#[derive(Debug)]
pub struct DivergenceRecord {
    pub class: MessageClass,
    pub served_by: AgentChoice,
    pub primary: String,
    pub advisor: String,
    pub shared: usize,
    pub total: u128,
    pub verdict: DivergenceVerdict,
}

/// The words of a text: its alphanumeric runs of three characters or more, in
/// lower case.
pub open spec fn word_list(s: Seq<char>) -> Seq<Seq<char>> {
    chars::pieces(chars::lower(s), CharSet::NotAlphanumeric).filter(chars::at_least(3))
}

/// The set of words of a text.
pub open spec fn word_set(s: Seq<char>) -> Set<Seq<char>> {
    word_list(s).to_set()
}

/// How many words two texts share.
pub open spec fn shared_words(a: Seq<char>, b: Seq<char>) -> nat {
    word_set(a).intersect(word_set(b)).len()
}

/// How many words two texts have together.
pub open spec fn total_words(a: Seq<char>, b: Seq<char>) -> nat {
    word_set(a).union(word_set(b)).len()
}

/// The verdict on a similarity of `shared` over `total`: a match from 0.75 up,
/// close from 0.35 up. Texts without words match.
pub open spec fn verdict_on(shared: nat, total: nat) -> DivergenceVerdict {
    if total == 0 || 4 * shared >= 3 * total {
        DivergenceVerdict::Match
    } else if 20 * shared >= 7 * total {
        DivergenceVerdict::Close
    } else {
        DivergenceVerdict::Divergent
    }
}

/// The transcript of a comparison, with the similarity in the given form.
pub open spec fn comparison_text(r: DivergenceRecord, similarity: Seq<char>) -> Seq<char> {
    "[advisor] class="@ + r.class.name() + " served_by="@ + r.served_by.name() + " similarity="@
        + similarity + " verdict="@ + r.verdict.name() + "\n--- primary ---\n"@ + chars::capped(
        r.primary@,
        600,
        "…"@,
    ) + "\n--- advisor ---\n"@ + chars::capped(r.advisor@, 600, "…"@)
}

impl DivergenceRecord {
    /// The transcript, with the similarity as a decimal.
    pub fn render(&self, similarity: &str) -> (r: String)
        ensures
            r@ == comparison_text(*self, similarity@),
    {
        let mut out = "[advisor] class=".to_owned();
        out.append(self.class.label());
        out.append(" served_by=");
        out.append(self.served_by.label());
        out.append(" similarity=");
        out.append(similarity);
        out.append(" verdict=");
        out.append(self.verdict.label());
        out.append("\n--- primary ---\n");
        out.append(text::capped(self.primary.as_str(), 600, "…").as_str());
        out.append("\n--- advisor ---\n");
        out.append(text::capped(self.advisor.as_str(), 600, "…").as_str());
        out
    }
}

/// The words of a text, each once.
fn tokenize(s: &str) -> (r: Vec<String>)
    ensures
        chars::owned_texts(r@).no_duplicates(),
        chars::owned_texts(r@).to_set() == word_set(s@),
{
    let lowered = text::lower(s);
    let parts = text::pieces(lowered.as_str(), CharSet::NotAlphanumeric);
    let ghost all = chars::texts(parts@);
    let mut out: Vec<String> = Vec::new();
    let mut i: usize = 0;
    proof {
        reveal(Seq::filter);
        assert(all.take(0) =~= Seq::empty());
        assert(chars::owned_texts(out@) =~= Seq::empty());
    }
    while i < parts.len()
        invariant
            i <= parts.len(),
            all == chars::texts(parts@),
            chars::owned_texts(out@).no_duplicates(),
            chars::owned_texts(out@).to_set() == all.take(i as int).filter(
                chars::at_least(3),
            ).to_set(),
        decreases parts.len() - i,
    {
        let ghost before = chars::owned_texts(out@);
        let ghost kept = all.take(i as int).filter(chars::at_least(3));
        let part = parts[i];
        proof {
            reveal(Seq::filter);
            assert(all.take(i + 1).drop_last() =~= all.take(i as int));
            chars::lemma_push_set(kept, part@);
            chars::lemma_push_set(before, part@);
        }
        if part.unicode_len() >= 3 {
            if text::any_same(&out, part) {
                assert(before.to_set().contains(part@));
                assert(before.to_set() =~= before.to_set().insert(part@));
            } else {
                out.push(part.to_owned());
                assert(chars::owned_texts(out@) =~= before.push(part@));
            }
        }
        i += 1;
    }
    assert(all.take(i as int) =~= all);
    out
}

/// How many words two lists without repetition share.
fn count_shared(a: &Vec<String>, b: &Vec<String>) -> (r: usize)
    requires
        chars::owned_texts(a@).no_duplicates(),
    ensures
        r == chars::owned_texts(a@).to_set().intersect(chars::owned_texts(b@).to_set()).len(),
        r <= a@.len(),
{
    let ghost left = chars::owned_texts(a@);
    let ghost right = chars::owned_texts(b@).to_set();
    let mut n: usize = 0;
    let mut i: usize = 0;
    assert(left.take(0).to_set().intersect(right) =~= Set::empty());
    while i < a.len()
        invariant
            n <= i <= a.len(),
            left == chars::owned_texts(a@),
            right == chars::owned_texts(b@).to_set(),
            left.no_duplicates(),
            n == left.take(i as int).to_set().intersect(right).len(),
            left.take(i as int).to_set().intersect(right).finite(),
        decreases a.len() - i,
    {
        let ghost before = left.take(i as int);
        let ghost x = left[i as int];
        proof {
            assert(left.take(i + 1) =~= before.push(x));
            chars::lemma_push_set(before, x);
            if before.contains(x) {
                let k = before.index_of(x);
                assert(left[k] == x);
                assert(false);
            }
            assert(!before.to_set().contains(x));
            if right.contains(x) {
                assert(left.take(i + 1).to_set().intersect(right)
                    =~= before.to_set().intersect(right).insert(x));
            } else {
                assert(left.take(i + 1).to_set().intersect(right)
                    =~= before.to_set().intersect(right));
            }
        }
        if text::any_same(b, a[i].as_str()) {
            n += 1;
        }
        i += 1;
    }
    assert(left.take(i as int) =~= left);
    n
}

/// Compares two answers by the words they share.
pub fn compare(
    class: MessageClass,
    served_by: AgentChoice,
    primary: &str,
    advisor: &str,
) -> (r: DivergenceRecord)
    ensures
        r.class == class,
        r.served_by == served_by,
        r.primary@ == primary@,
        r.advisor@ == advisor@,
        shared_words(primary@, advisor@) == r.shared,
        total_words(primary@, advisor@) == r.total,
        r.verdict == verdict_on(
            shared_words(primary@, advisor@),
            total_words(primary@, advisor@),
        ),
{
    let left = tokenize(primary);
    let right = tokenize(advisor);
    let shared: usize = count_shared(&left, &right);
    proof {
        chars::owned_texts(left@).unique_seq_to_set();
        chars::owned_texts(right@).unique_seq_to_set();
        lemma_set_intersect_union_lens(word_set(primary@), word_set(advisor@));
    }
    let wide: u128 = left.len() as u128 + right.len() as u128 - shared as u128;
    let s: u128 = shared as u128;
    let verdict = if wide == 0 || 4 * s >= 3 * wide {
        DivergenceVerdict::Match
    } else if 20 * s >= 7 * wide {
        DivergenceVerdict::Close
    } else {
        DivergenceVerdict::Divergent
    };
    DivergenceRecord {
        class,
        served_by,
        primary: primary.to_owned(),
        advisor: advisor.to_owned(),
        shared,
        total: wide,
        verdict,
    }
}

/// A text compared with itself matches.
pub proof fn law_same_text_matches(s: Seq<char>)
    ensures
        verdict_on(shared_words(s, s), total_words(s, s)) == DivergenceVerdict::Match,
{
    assert(word_set(s).intersect(word_set(s)) =~= word_set(s));
    assert(word_set(s).union(word_set(s)) =~= word_set(s));
}

/// The verdict does not depend on which answer comes first.
pub proof fn law_comparison_is_symmetric(a: Seq<char>, b: Seq<char>)
    ensures
        shared_words(a, b) == shared_words(b, a),
        total_words(a, b) == total_words(b, a),
{
    assert(word_set(a).intersect(word_set(b)) =~= word_set(b).intersect(word_set(a)));
    assert(word_set(a).union(word_set(b)) =~= word_set(b).union(word_set(a)));
}

/// Texts with words but none in common diverge.
pub proof fn law_disjoint_texts_diverge(a: Seq<char>, b: Seq<char>)
    requires
        word_set(a).disjoint(word_set(b)),
        word_list(a).len() > 0,
    ensures
        verdict_on(shared_words(a, b), total_words(a, b)) == DivergenceVerdict::Divergent,
{
    assert(word_set(a).intersect(word_set(b)) =~= Set::empty());
    let w = word_list(a)[0];
    assert(word_list(a).contains(w));
    assert(word_set(a).union(word_set(b)).contains(w));
    assert(word_set(a).union(word_set(b)).finite());
    if word_set(a).union(word_set(b)).len() == 0 {
        assert(word_set(a).union(word_set(b)) =~= Set::empty());
    }
}

}
