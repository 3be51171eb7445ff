//! Packs from reranked candidates, and the pools that are reranked.

use vstd::prelude::*;

use crate::json::text_of_string;
use crate::pack::{best_score, empty_model, empty_pack, poured};
use crate::ranking::{
    key_models, place_of_zero, positions, sort_order, sorting, zero_place, KeyModel, Score, SortKey,
    SortText,
};
use crate::requests::{PackModel, PackReport, PackRequest};
use crate::text::{chars_of, views};

verus! {

/// How many bytes a character takes in UTF-8.
pub open spec fn utf8_width(c: char) -> nat {
    if c <= '\u{7f}' {
        1
    } else if c <= '\u{7ff}' {
        2
    } else if c <= '\u{ffff}' {
        3
    } else {
        4
    }
}

/// How many bytes a text takes in UTF-8.
pub open spec fn byte_len(s: Seq<char>) -> nat
    decreases s.len(),
{
    if s.len() == 0 {
        0
    } else {
        byte_len(s.drop_last()) + utf8_width(s.last())
    }
}

/// How many leading characters fit into so many bytes.
pub open spec fn byte_prefix(s: Seq<char>, budget: int) -> nat
    decreases s.len(),
{
    if s.len() == 0 || utf8_width(s[0]) > budget {
        0
    } else {
        1 + byte_prefix(s.skip(1), budget - utf8_width(s[0]))
    }
}

fn width_of(c: char) -> (r: usize)
    ensures
        r == utf8_width(c),
{
    if c <= '\u{7f}' {
        1
    } else if c <= '\u{7ff}' {
        2
    } else if c <= '\u{ffff}' {
        3
    } else {
        4
    }
}

proof fn lemma_byte_len_prefix(s: Seq<char>, i: int)
    requires
        0 <= i <= s.len(),
    ensures
        byte_len(s.take(i)) <= byte_len(s),
    decreases s.len() - i,
{
    if i < s.len() {
        lemma_byte_len_prefix(s, i + 1);
        assert(s.take(i + 1).drop_last() =~= s.take(i));
    } else {
        assert(s.take(i) =~= s);
    }
}

/// The length of a text in bytes, where it is within `limit`.
pub fn byte_len_within(s: &str, limit: usize) -> (r: Option<usize>)
    ensures
        match r {
            Some(n) => n == byte_len(s@) && n <= limit,
            None => byte_len(s@) > limit,
        },
{
    let chars = chars_of(s);
    let mut total: usize = 0;
    assert(s@.take(0) =~= Seq::empty());
    for i in 0..chars.len()
        invariant
            chars@ == s@,
            total == byte_len(s@.take(i as int)),
            total <= limit,
    {
        let width: usize = width_of(chars[i]);
        proof {
            assert(s@.take(i + 1).drop_last() =~= s@.take(i as int));
            lemma_byte_len_prefix(s@, i + 1);
        }
        if width > limit - total {
            return None;
        }
        total = total + width;
    }
    assert(s@.take(chars@.len() as int) =~= s@);
    Some(total)
}

proof fn lemma_byte_prefix_step(s: Seq<char>, i: int, budget: int)
    requires
        0 <= i <= s.len(),
        i <= byte_prefix(s, budget),
    ensures
        byte_prefix(s, budget) == i + byte_prefix(s.skip(i), budget - byte_len(s.take(i))),
    decreases i,
{
    if i == 0 {
        assert(s.skip(0) =~= s);
        assert(byte_len(s.take(0)) == 0);
    } else {
        lemma_byte_prefix_step(s, i - 1, budget);
        assert(s.take(i).drop_last() =~= s.take(i - 1));
        assert(s.skip(i - 1).skip(1) =~= s.skip(i));
        assert(s.skip(i - 1)[0] == s[i - 1]);
    }
}

/// The longest prefix within a byte budget: it fits, and one more character would
/// not.
pub proof fn law_byte_prefix_is_longest(s: Seq<char>, budget: nat)
    ensures
        byte_prefix(s, budget as int) <= s.len(),
        byte_len(s.take(byte_prefix(s, budget as int) as int)) <= budget,
        byte_prefix(s, budget as int) < s.len() ==> byte_len(
            s.take(byte_prefix(s, budget as int) as int + 1),
        ) > budget,
{
    lemma_byte_prefix_bound(s, budget as int);
    let n = byte_prefix(s, budget as int);
    lemma_byte_prefix_step(s, n as int, budget as int);
    if n < s.len() {
        assert(s.take(n as int + 1).drop_last() =~= s.take(n as int));
        assert(s.skip(n as int)[0] == s[n as int]);
    }
}

proof fn lemma_byte_prefix_bound(s: Seq<char>, budget: int)
    requires
        budget >= 0,
    ensures
        byte_prefix(s, budget) <= s.len(),
        byte_len(s.take(byte_prefix(s, budget) as int)) <= budget,
    decreases s.len(),
{
    if s.len() == 0 || utf8_width(s[0]) > budget {
        assert(byte_len(s.take(0)) == 0);
    } else {
        let rest = budget - utf8_width(s[0]);
        lemma_byte_prefix_bound(s.skip(1), rest);
        let n = byte_prefix(s, budget);
        lemma_byte_len_first(s.take(n as int));
        assert(s.take(n as int).skip(1) =~= s.skip(1).take(n - 1));
    }
}

proof fn lemma_byte_len_first(s: Seq<char>)
    requires
        s.len() > 0,
    ensures
        byte_len(s) == utf8_width(s[0]) + byte_len(s.skip(1)),
    decreases s.len(),
{
    if s.len() == 1 {
        assert(s.drop_last() =~= Seq::empty());
        assert(s.skip(1) =~= Seq::empty());
    } else {
        lemma_byte_len_first(s.drop_last());
        assert(s.skip(1).drop_last() =~= s.drop_last().skip(1));
    }
}

/// The bytes of two texts add up.
pub proof fn lemma_byte_len_concat(a: Seq<char>, b: Seq<char>)
    ensures
        byte_len(a + b) == byte_len(a) + byte_len(b),
    decreases b.len(),
{
    if b.len() == 0 {
        assert(a + b =~= a);
    } else {
        lemma_byte_len_concat(a, b.drop_last());
        assert((a + b).drop_last() =~= a + b.drop_last());
    }
}

/// An entry cut to a budget in bytes: bullet, the longest prefix that fits, and
/// an ellipsis; nothing where not even one character would remain.
pub open spec fn cut_entry(content: Seq<char>, max: nat) -> Option<Seq<char>> {
    let kept = byte_prefix(content, max - 6);
    if max <= 6 || kept == 0 {
        None
    } else {
        Some("- "@ + content.take(kept as int) + seq!['\u{2026}', '\n'])
    }
}

/// Render a single oversized pack entry truncated to fit the whole budget.
pub fn truncate_pack_entry(content: &str, max_chars: usize) -> (r: Option<String>)
    ensures
        text_of_string(r) == cut_entry(content@, max_chars as nat),
{
    if max_chars <= 6 {
        return None;
    }
    let budget: usize = max_chars - 6;
    let chars = chars_of(content);
    let mut used: usize = 0;
    let mut kept: usize = 0;
    let mut open: bool = true;
    assert(content@.take(0) =~= Seq::empty());
    while kept < chars.len() && open
        invariant
            chars@ == content@,
            kept <= chars@.len(),
            used <= budget,
            used == byte_len(content@.take(kept as int)),
            kept <= byte_prefix(content@, budget as int),
            !open ==> kept == byte_prefix(content@, budget as int),
        decreases chars@.len() - kept, if open { 1int } else { 0int },
    {
        let width: usize = width_of(chars[kept]);
        proof {
            lemma_byte_prefix_step(content@, kept as int, budget as int);
            assert(content@.skip(kept as int)[0] == content@[kept as int]);
            assert(content@.take(kept + 1).drop_last() =~= content@.take(kept as int));
        }
        if width > budget - used {
            open = false;
        } else {
            used = used + width;
            kept = kept + 1;
        }
    }
    proof {
        lemma_byte_prefix_bound(content@, budget as int);
    }
    if kept == 0 {
        return None;
    }
    let mut entry = "- ".to_owned();
    entry.append(content.substring_char(0, kept));
    assert(content@.subrange(0, kept as int) =~= content@.take(kept as int));
    let ghost head = entry@;
    entry.push('\u{2026}');
    entry.push('\n');
    assert(entry@ =~= head + seq!['\u{2026}', '\n']);
    Some(entry)
}

/// One pack candidate after cross-encoder reranking.
pub struct RerankCandidate {
    /// Candidate memory id.
    pub memory_id: String,
    /// Memory content.
    pub content: String,
    /// Source observation time rendered with the content.
    pub observed_at: String,
    /// Cross-encoder relevance score.
    pub rerank_score: Score,
    /// Whether the score is the zero with a minus sign, which ranks below the other
    /// zero.
    pub negative_zero: bool,
    /// True when both direct retrieval and the graph reached this memory.
    pub consensus: bool,
    /// Graph activation, for a candidate that a relationship hop reached.
    pub activation: Option<Score>,
}

/// The model of a reranked candidate.
pub struct RerankModel {
    /// Candidate memory id.
    pub memory_id: Seq<char>,
    /// Memory content.
    pub content: Seq<char>,
    /// Source observation time.
    pub observed_at: Seq<char>,
    /// Relevance score.
    pub rerank_score: Score,
    /// Whether the score is the zero with a minus sign.
    pub negative_zero: bool,
    /// Whether both legs reached it.
    pub consensus: bool,
    /// Graph activation.
    pub activation: Option<Score>,
}

impl View for RerankCandidate {
    type V = RerankModel;

    open spec fn view(&self) -> RerankModel {
        RerankModel {
            memory_id: self.memory_id@,
            content: self.content@,
            observed_at: self.observed_at@,
            rerank_score: self.rerank_score,
            negative_zero: self.negative_zero,
            consensus: self.consensus,
            activation: self.activation,
        }
    }
}

/// The models of reranked candidates.
pub open spec fn rerank_models(list: Seq<RerankCandidate>) -> Seq<RerankModel> {
    list.map_values(|c: RerankCandidate| c@)
}

/// The place by activation: more of it first, none at all last.
pub open spec fn activation_place(activation: Option<Score>) -> i128 {
    match activation {
        Some(score) => (-(score.key as int)) as i128,
        None => 0x1_0000_0000_0000_0000,
    }
}

/// The sort key of a reranked candidate: score, consensus, activation, id.
pub open spec fn rerank_key(candidate: RerankModel) -> KeyModel {
    KeyModel {
        numbers: seq![
            (-(candidate.rerank_score.key as int)) as i128,
            zero_place(candidate.rerank_score, candidate.negative_zero),
            if candidate.consensus {
                0i128
            } else {
                1i128
            },
            activation_place(candidate.activation),
        ],
        texts: seq![(candidate.memory_id, false)],
    }
}

/// The sort keys of reranked candidates.
pub open spec fn rerank_keys(list: Seq<RerankModel>) -> Seq<KeyModel> {
    list.map_values(|c: RerankModel| rerank_key(c))
}

/// The candidates, best first.
pub open spec fn reranked(list: Seq<RerankModel>) -> Seq<RerankModel> {
    let order = sorting(rerank_keys(list));
    Seq::new(order.len(), |i: int| list[order[i]])
}

/// The line of a candidate without its bullet and newline.
pub open spec fn rerank_body(candidate: RerankModel) -> Seq<char> {
    "[Observed at: "@ + candidate.observed_at + "] "@ + candidate.content
}

/// The line of a candidate.
pub open spec fn rerank_line(candidate: RerankModel) -> Seq<char> {
    "- "@ + rerank_body(candidate) + "\n"@
}

/// The lines of candidates.
pub open spec fn rerank_lines(list: Seq<RerankModel>) -> Seq<Seq<char>> {
    list.map_values(|c: RerankModel| rerank_line(c))
}

/// How many leading lines fit into `room` bytes, at most `count`.
pub open spec fn fitting_bytes(lines: Seq<Seq<char>>, room: int, count: nat) -> nat
    decreases lines.len(),
{
    if lines.len() == 0 || count == 0 || byte_len(lines[0]) > room {
        0
    } else {
        1 + fitting_bytes(lines.skip(1), room - byte_len(lines[0]), (count - 1) as nat)
    }
}

proof fn lemma_fitting_bytes_step(lines: Seq<Seq<char>>, i: int, room: int, count: nat)
    requires
        0 <= i <= lines.len(),
        i <= fitting_bytes(lines, room, count),
    ensures
        i <= count,
        fitting_bytes(lines, room, count) == i + fitting_bytes(
            lines.skip(i),
            room - byte_len(poured(lines.take(i))),
            (count - i) as nat,
        ),
    decreases i,
{
    if i == 0 {
        assert(lines.skip(0) =~= lines);
        assert(byte_len(poured(lines.take(0))) == 0);
    } else {
        lemma_fitting_bytes_step(lines, i - 1, room, count);
        assert(lines.take(i).drop_last() =~= lines.take(i - 1));
        lemma_byte_len_concat(poured(lines.take(i - 1)), lines[i - 1]);
        assert(lines.skip(i - 1).skip(1) =~= lines.skip(i));
        assert(lines.skip(i - 1)[0] == lines[i - 1]);
    }
}

proof fn lemma_fitting_bytes_bound(lines: Seq<Seq<char>>, room: int, count: nat)
    ensures
        fitting_bytes(lines, room, count) <= lines.len(),
        fitting_bytes(lines, room, count) <= count,
    decreases lines.len(),
{
    if !(lines.len() == 0 || count == 0 || byte_len(lines[0]) > room) {
        lemma_fitting_bytes_bound(
            lines.skip(1),
            room - byte_len(lines[0]),
            (count - 1) as nat,
        );
    }
}

/// The ids of candidates.
pub open spec fn rerank_ids(list: Seq<RerankModel>) -> Seq<Seq<char>> {
    list.map_values(|c: RerankModel| c.memory_id)
}

/// The scores of candidates.
pub open spec fn rerank_scores(list: Seq<RerankModel>) -> Seq<Score> {
    list.map_values(|c: RerankModel| c.rerank_score)
}

/// The pack of reranked candidates: nothing where the best score misses the
/// floor, otherwise as many of the best candidates as the budget has room for,
/// the first of them cut where one is asked for and it alone has no room.
pub open spec fn reranked_pack(request: PackRequest, list: Seq<RerankModel>) -> PackModel {
    let best = best_score(rerank_scores(list));
    let ordered = reranked(list);
    let lines = rerank_lines(ordered);
    let n = fitting_bytes(lines, request.max_chars as int, request.max_memories as nat);
    if list.len() == 0 || best->0.key < request.min_score.key {
        empty_model(request)
    } else {
        let (content, shown, cut) = if n > 0 {
            (poured(lines.take(n as int)), n, false)
        } else if request.max_memories == 0 {
            (Seq::<char>::empty(), 0nat, false)
        } else {
            match cut_entry(rerank_body(ordered[0]), request.max_chars as nat) {
                Some(entry) => (entry, 1nat, true),
                None => (Seq::<char>::empty(), 0nat, false),
            }
        };
        PackModel {
            title: request.title@,
            format: request.format@,
            content,
            memory_ids: rerank_ids(ordered).take(shown as int),
            scores: rerank_scores(ordered).take(shown as int),
            truncated: shown < list.len() || cut,
            top_score: best,
        }
    }
}

fn rerank_order(list: &Vec<RerankCandidate>) -> (r: Vec<usize>)
    ensures
        positions(r@) == sorting(rerank_keys(rerank_models(list@))),
        r@.len() == list@.len(),
        forall|i: int| 0 <= i < r@.len() ==> (#[trigger] r@[i]) < list@.len(),
{
    let ghost wanted = rerank_keys(rerank_models(list@));
    let mut keys: Vec<SortKey> = Vec::new();
    assert(key_models(keys@) =~= wanted.take(0));
    for i in 0..list.len()
        invariant
            wanted == rerank_keys(rerank_models(list@)),
            key_models(keys@) == wanted.take(i as int),
    {
        let candidate = &list[i];
        let place: i128 = match candidate.activation {
            Some(score) => -(score.key as i128),
            None => 0x1_0000_0000_0000_0000,
        };
        let agreed: i128 = if candidate.consensus {
            0
        } else {
            1
        };
        let mut numbers: Vec<i128> = Vec::new();
        numbers.push(-(candidate.rerank_score.key as i128));
        let zero: i128 = place_of_zero(candidate.rerank_score, candidate.negative_zero);
        numbers.push(zero);
        numbers.push(agreed);
        numbers.push(place);
        let mut texts: Vec<SortText> = Vec::new();
        texts.push(SortText { text: candidate.memory_id.clone(), descending: false });
        let key = SortKey { numbers, texts };
        proof {
            assert(key@.numbers =~= wanted[i as int].numbers);
            assert(key@.texts =~= wanted[i as int].texts);
        }
        let ghost before = keys@;
        keys.push(key);
        assert(key_models(keys@) =~= key_models(before).push(wanted[i as int]));
        assert(wanted.take(i + 1) =~= wanted.take(i as int).push(wanted[i as int]));
    }
    assert(wanted.take(list@.len() as int) =~= wanted);
    let order = sort_order(keys.as_slice());
    proof {
        assert forall|i: int| 0 <= i < order@.len() implies (#[trigger] order@[i])
            < list@.len() by {
            assert(positions(order@)[i] == order@[i]);
        }
    }
    order
}

fn body_text(candidate: &RerankCandidate) -> (r: String)
    ensures
        r@ == rerank_body(candidate@),
{
    let mut body = "[Observed at: ".to_owned();
    body.append(candidate.observed_at.as_str());
    body.append("] ");
    body.append(candidate.content.as_str());
    body
}

fn best_candidate_score(list: &Vec<RerankCandidate>) -> (r: Option<Score>)
    ensures
        r == best_score(rerank_scores(rerank_models(list@))),
{
    let ghost scores = rerank_scores(rerank_models(list@));
    let mut top: Option<Score> = None;
    assert(scores.take(0) =~= Seq::empty());
    for i in 0..list.len()
        invariant
            scores == rerank_scores(rerank_models(list@)),
            top == best_score(scores.take(i as int)),
    {
        assert(scores.take(i + 1).drop_last() =~= scores.take(i as int));
        assert(scores.take(i + 1).last() == list@[i as int].rerank_score);
        let score = list[i].rerank_score;
        match top {
            Some(best) => {
                if best.key < score.key {
                    top = Some(score);
                }
            },
            None => {
                top = Some(score);
            },
        }
    }
    assert(scores.take(list@.len() as int) =~= scores);
    top
}

proof fn lemma_best_score_exists(scores: Seq<Score>)
    requires
        scores.len() > 0,
    ensures
        best_score(scores) is Some,
{
}

/// Assemble the final pack from a reranked candidate pool, applying one
/// pack-level top-score gate, rerank ordering, and the size/count budget.
pub fn assemble_reranked_pack(request: &PackRequest, candidates: &Vec<RerankCandidate>) -> (r:
    PackReport)
    ensures
        r@ == reranked_pack(*request, rerank_models(candidates@)),
{
    let ghost models = rerank_models(candidates@);
    let ghost ordered = reranked(models);
    let ghost lines = rerank_lines(ordered);
    let ghost max = request.max_chars as int;
    let ghost cap = request.max_memories as nat;
    let total: usize = candidates.len();
    let order = rerank_order(candidates);
    assert(ordered.len() == order@.len()) by {
        assert(positions(order@).len() == order@.len());
    }
    assert forall|i: int| 0 <= i < order@.len() implies ordered[i] == candidates@[order@[i] as int]@ by {
        assert(positions(order@)[i] == order@[i]);
    }
    let top = best_candidate_score(candidates);
    match top {
        None => {
            assert(total == 0) by {
                if total > 0 {
                    lemma_best_score_exists(rerank_scores(models));
                }
            }
            return empty_pack(request);
        },
        Some(best) => {
            if total == 0 || best.key < request.min_score.key {
                return empty_pack(request);
            }
        },
    }
    let mut content = String::new();
    let mut memory_ids: Vec<String> = Vec::new();
    let mut scores: Vec<Score> = Vec::new();
    let mut used: usize = 0;
    let mut i: usize = 0;
    let mut open: bool = true;
    assert(content@ =~= poured(lines.take(0)));
    assert(views(memory_ids@) =~= rerank_ids(ordered).take(0));
    assert(scores@ =~= rerank_scores(ordered).take(0));
    while i < total && open
        invariant
            total == candidates@.len(),
            order@.len() == total,
            ordered.len() == total,
            forall|k: int| 0 <= k < order@.len() ==> (#[trigger] order@[k]) < candidates@.len(),
            forall|k: int|
                0 <= k < order@.len() ==> ordered[k] == (#[trigger] candidates@[order@[k] as int])@,
            lines == rerank_lines(ordered),
            max == request.max_chars,
            cap == request.max_memories,
            i <= total,
            i <= fitting_bytes(lines, max, cap),
            used == byte_len(content@),
            used <= request.max_chars,
            content@ == poured(lines.take(i as int)),
            views(memory_ids@) == rerank_ids(ordered).take(i as int),
            scores@ == rerank_scores(ordered).take(i as int),
            !open ==> i == fitting_bytes(lines, max, cap),
        decreases total - i, if open { 1int } else { 0int },
    {
        proof {
            lemma_fitting_bytes_step(lines, i as int, max, cap);
            assert(lines.skip(i as int).len() > 0 ==> lines.skip(i as int)[0] == lines[i as int]);
        }
        if i >= request.max_memories {
            open = false;
        } else {
            let candidate = &candidates[order[i]];
            let mut entry = "- ".to_owned();
            let body = body_text(candidate);
            entry.append(body.as_str());
            entry.append("\n");
            assert(entry@ == lines[i as int]);
            match byte_len_within(entry.as_str(), request.max_chars - used) {
                None => {
                    open = false;
                },
                Some(width) => {
                    let ghost before_ids = memory_ids@;
                    let ghost before = content@;
                    content.append(entry.as_str());
                    used = used + width;
                    memory_ids.push(candidate.memory_id.clone());
                    scores.push(candidate.rerank_score);
                    proof {
                        lemma_byte_len_concat(before, entry@);
                        assert(lines.take(i + 1).drop_last() =~= lines.take(i as int));
                        assert(views(memory_ids@) =~= views(before_ids).push(
                            ordered[i as int].memory_id,
                        ));
                        assert(rerank_ids(ordered).take(i + 1) =~= rerank_ids(ordered).take(
                            i as int,
                        ).push(ordered[i as int].memory_id));
                        assert(rerank_scores(ordered).take(i + 1) =~= rerank_scores(ordered).take(
                            i as int,
                        ).push(ordered[i as int].rerank_score));
                    }
                    i = i + 1;
                },
            }
        }
    }
    proof {
        lemma_fitting_bytes_bound(lines, max, cap);
    }
    let mut cut: bool = false;
    if i == 0 && request.max_memories > 0 {
        let best = &candidates[order[0]];
        assert(ordered[0] == best@);
        let body = body_text(best);
        assert(lines.take(0) =~= Seq::empty());
        assert(content@ =~= Seq::empty());
        match truncate_pack_entry(body.as_str(), request.max_chars) {
            Some(entry) => {
                content = entry;
                memory_ids.push(best.memory_id.clone());
                scores.push(best.rerank_score);
                assert(views(memory_ids@) =~= rerank_ids(ordered).take(1));
                assert(scores@ =~= rerank_scores(ordered).take(1));
                cut = true;
            },
            None => {},
        }
    }
    let shown: usize = memory_ids.len();
    assert(views(memory_ids@).len() == shown);
    PackReport {
        title: request.title.clone(),
        format: request.format.clone(),
        content,
        memory_ids,
        scores,
        truncated: shown < total || cut,
        top_score: top,
    }
}

proof fn lemma_fitting_bytes_room(lines: Seq<Seq<char>>, room: int, count: nat)
    requires
        room >= 0,
    ensures
        byte_len(poured(lines.take(fitting_bytes(lines, room, count) as int))) <= room,
    decreases lines.len(),
{
    let n = fitting_bytes(lines, room, count);
    lemma_fitting_bytes_bound(lines, room, count);
    if n == 0 {
        assert(poured(lines.take(0)).len() == 0);
    } else {
        lemma_fitting_bytes_step(lines, n - 1, room, count);
        let before = lines.take(n - 1);
        assert(lines.take(n as int).drop_last() =~= before);
        lemma_byte_len_concat(poured(before), lines[n - 1]);
        assert(lines.skip(n - 1)[0] == lines[n - 1]);
    }
}

/// A cut entry stays within its budget in bytes.
pub proof fn law_cut_entry_keeps_budget(content: Seq<char>, max: nat)
    ensures
        cut_entry(content, max) matches Some(entry) ==> byte_len(entry) <= max,
{
    if max > 6 {
        reveal_strlit("- ");
        lemma_byte_prefix_bound(content, max - 6);
        let kept = content.take(byte_prefix(content, max - 6) as int);
        let mark = seq!['\u{2026}', '\n'];
        lemma_byte_len_concat("- "@, kept);
        lemma_byte_len_concat("- "@ + kept, mark);
        reveal_with_fuel(byte_len, 3);
        assert("- "@.drop_last() =~= seq!['-']);
        assert(seq!['-'].drop_last() =~= Seq::empty());
        assert(byte_len("- "@) == 2);
        assert(mark.drop_last() =~= seq!['\u{2026}']);
        assert(seq!['\u{2026}'].drop_last() =~= Seq::empty());
        assert(byte_len(mark) == 4);
    }
}

/// A reranked pack lists a score beside each memory, stays within its budget in
/// bytes, and holds no more memories than asked for.
pub proof fn law_reranked_pack_is_aligned(request: PackRequest, list: Seq<RerankModel>)
    ensures
        ({
            let pack = reranked_pack(request, list);
            &&& pack.memory_ids.len() == pack.scores.len()
            &&& byte_len(pack.content) <= request.max_chars
            &&& pack.memory_ids.len() <= request.max_memories
        }),
{
    let ordered = reranked(list);
    let lines = rerank_lines(ordered);
    let max = request.max_chars as int;
    lemma_fitting_bytes_room(lines, max, request.max_memories as nat);
    lemma_fitting_bytes_bound(lines, max, request.max_memories as nat);
    if list.len() > 0 {
        crate::ranking::law_sorting_exists(rerank_keys(list));
        law_cut_entry_keeps_budget(rerank_body(ordered[0]), request.max_chars as nat);
    }
}

} // verus!
