//! Prompt packs: choosing memories and rendering them within a budget.

use vstd::prelude::*;

use crate::error::{concat, concat3, concat4, Error};
use crate::json::{json_text, json_text_member, text_of, text_of_string};
use crate::order::{text_less, text_lt};
use crate::pack_queries::{pack_fault, validate_pack_request};
use crate::pool::{interleaved, longest, rank_row, round_robin};
use crate::ranking::Score;
use crate::requests::{PackModel, PackReport, PackRequest, SearchReport, SearchResult};
use crate::text::{
    bounded_char_slice, chars_of, collapse_whitespace, collapsed, is_blank, join, joined, text_eq,
    trim, trimmed, views,
};
use crate::vocabulary::DEFAULT_DURABLE_SILO;

verus! {

/// The pack that injects nothing.
pub open spec fn empty_model(request: PackRequest) -> PackModel {
    PackModel {
        title: request.title@,
        format: request.format@,
        content: Seq::empty(),
        memory_ids: Seq::empty(),
        scores: Seq::empty(),
        truncated: false,
        top_score: None,
    }
}

/// Build an empty pack (no injection) that preserves the request's title/format.
pub fn empty_pack(request: &PackRequest) -> (r: PackReport)
    ensures
        r@ == empty_model(*request),
{
    let r = PackReport {
        title: request.title.clone(),
        format: request.format.clone(),
        content: String::new(),
        memory_ids: Vec::new(),
        scores: Vec::new(),
        truncated: false,
        top_score: None,
    };
    assert(r@.memory_ids =~= Seq::empty());
    assert(r@.scores =~= Seq::empty());
    r
}

/// The note on how far a volatile memory can be trusted, given what its metadata
/// says of its verification.
pub open spec fn freshness(
    silo: Seq<char>,
    verified_against: Option<Seq<char>>,
    verified_at: Option<Seq<char>>,
    last_synth: Option<Seq<char>>,
) -> Seq<char> {
    if silo == DEFAULT_DURABLE_SILO@ {
        Seq::empty()
    } else {
        match verified_against {
            None => Seq::empty(),
            Some(source) => match (verified_at, last_synth) {
                (Some(at), Some(synth)) if !text_less(at, synth) => " [confirmed "@ + at + " vs "@
                    + source + "]"@,
                (Some(at), _) => " [VERIFY vs "@ + source + "; last "@ + at + "]"@,
                (None, _) => " [VERIFY vs "@ + source + "; last "@ + "never"@ + "]"@,
            },
        }
    }
}

/// Renders the verification note of a memory from the fields of its metadata.
pub fn freshness_text(
    silo: &str,
    verified_against: Option<&str>,
    verified_at: Option<&str>,
    last_synth: Option<&str>,
) -> (r: String)
    ensures
        r@ == freshness(silo@, text_of(verified_against), text_of(verified_at), text_of(last_synth)),
{
    if text_eq(silo, DEFAULT_DURABLE_SILO) {
        return String::new();
    }
    match verified_against {
        None => String::new(),
        Some(source) => {
            let fresh: bool = match (verified_at, last_synth) {
                (Some(at), Some(synth)) => !text_lt(at, synth),
                _ => false,
            };
            let at = match verified_at {
                Some(at) => at,
                None => "never",
            };
            if fresh {
                let head = concat4(" [confirmed ", at, " vs ", source);
                concat(head.as_str(), "]")
            } else {
                let head = concat4(" [VERIFY vs ", source, "; last ", at);
                concat(head.as_str(), "]")
            }
        },
    }
}

/// A member of a JSON text that may be absent.
pub open spec fn member_of(metadata: Option<Seq<char>>, key: Seq<char>) -> Option<Seq<char>> {
    match metadata {
        Some(text) => json_text(text, key),
        None => None,
    }
}

/// The verification note of a memory.
pub open spec fn marker(
    silo: Seq<char>,
    metadata: Option<Seq<char>>,
    last_synth: Option<Seq<char>>,
) -> Seq<char> {
    freshness(
        silo,
        member_of(metadata, "verified_against"@),
        member_of(metadata, "verified_at"@),
        last_synth,
    )
}

/// A member of a JSON text that may be absent.
fn member(metadata: Option<&str>, key: &str) -> (r: Option<String>)
    ensures
        text_of_string(r) == member_of(text_of(metadata), key@),
{
    match metadata {
        Some(text) => json_text_member(text, key),
        None => None,
    }
}

/// Renders the verification note of a memory. Durable memories have none.
pub fn freshness_marker(silo: &str, metadata_json: Option<&str>, last_synth: Option<&str>) -> (r:
    String)
    ensures
        r@ == marker(silo@, text_of(metadata_json), text_of(last_synth)),
{
    let source = member(metadata_json, "verified_against");
    let at = member(metadata_json, "verified_at");
    freshness_text(silo, crate::json::as_text(&source), crate::json::as_text(&at), last_synth)
}

/// The text by which a result is rendered: its summary, or its snippet where
/// there is no summary to show.
pub open spec fn shown_text(result: SearchResult) -> Seq<char> {
    match text_of_string(result.summary) {
        Some(summary) => if is_blank(summary) {
            collapsed(result.snippet@)
        } else {
            collapsed(summary)
        },
        None => collapsed(result.snippet@),
    }
}

/// The tags of a result as shown.
pub open spec fn shown_tags(result: SearchResult) -> Seq<char> {
    if result.tags@.len() == 0 {
        "-"@
    } else {
        joined(views(result.tags@), ","@)
    }
}

/// The line of a result.
pub open spec fn result_line(result: SearchResult, last_synth: Option<Seq<char>>) -> Seq<char> {
    "- [Observed at: "@ + result.observed_at@ + "] ["@ + result.kind@ + ":"@ + result.memory_id@
        + "] "@ + shown_text(result) + " (space="@ + result.space@ + ", silo="@ + result.silo@
        + ", scope="@ + result.scope@ + ", tags="@ + shown_tags(result) + ")"@ + marker(
        result.silo@,
        text_of_string(result.metadata_json),
        last_synth,
    ) + "\n"@
}

/// Renders the line of a result.
fn build_line(result: &SearchResult, last_synth: Option<&str>) -> (r: String)
    ensures
        r@ == result_line(*result, text_of(last_synth)),
{
    let shown = match &result.summary {
        Some(summary) => if trim(summary.as_str()).is_empty() {
            collapse_whitespace(result.snippet.as_str())
        } else {
            collapse_whitespace(summary.as_str())
        },
        None => collapse_whitespace(result.snippet.as_str()),
    };
    let tags = if result.tags.len() == 0 {
        "-".to_owned()
    } else {
        join(result.tags.as_slice(), ",")
    };
    let note = freshness_marker(
        result.silo.as_str(),
        crate::json::as_text(&result.metadata_json),
        last_synth,
    );
    let mut line = "- [Observed at: ".to_owned();
    line.append(result.observed_at.as_str());
    line.append("] [");
    line.append(result.kind.as_str());
    line.append(":");
    line.append(result.memory_id.as_str());
    line.append("] ");
    line.append(shown.as_str());
    line.append(" (space=");
    line.append(result.space.as_str());
    line.append(", silo=");
    line.append(result.silo.as_str());
    line.append(", scope=");
    line.append(result.scope.as_str());
    line.append(", tags=");
    line.append(tags.as_str());
    line.append(")");
    line.append(note.as_str());
    line.append("\n");
    line
}

/// Appends a text where the result stays within `max_chars` characters.
pub fn append_with_char_budget(output: &mut String, text: &str, max_chars: usize) -> (r: bool)
    ensures
        r == (old(output)@.len() + text@.len() <= max_chars),
        final(output)@ == if r {
            old(output)@ + text@
        } else {
            old(output)@
        },
{
    let current: usize = output.as_str().unicode_len();
    let additional: usize = text.unicode_len();
    if current <= max_chars && additional <= max_chars - current {
        output.append(text);
        true
    } else {
        false
    }
}

/// A rendered line cut to `budget` characters, with an ellipsis in place of what
/// was cut; nothing where not even one character would remain.
pub open spec fn cut_line(line: Seq<char>, budget: nat) -> Option<Seq<char>> {
    let body = if line.len() > 0 && line.last() == '\n' {
        line.drop_last()
    } else {
        line
    };
    if budget <= 2 || body.len() == 0 {
        None
    } else {
        let keep = (budget - 2) as int;
        let kept = if keep < body.len() {
            body.take(keep)
        } else {
            body
        };
        Some(kept + seq!['\u{2026}', '\n'])
    }
}

/// Cuts a rendered line to `budget` characters.
pub fn truncate_pack_line(line: &str, budget: usize) -> (r: Option<String>)
    ensures
        text_of_string(r) == cut_line(line@, budget as nat),
{
    if budget <= 2 {
        return None;
    }
    let chars = chars_of(line);
    let len: usize = if chars.len() > 0 && chars[chars.len() - 1] == '\n' {
        chars.len() - 1
    } else {
        chars.len()
    };
    if len == 0 {
        return None;
    }
    let ghost body = if line@.len() > 0 && line@.last() == '\n' {
        line@.drop_last()
    } else {
        line@
    };
    assert(body =~= line@.take(len as int));
    let keep: usize = if budget - 2 < len {
        budget - 2
    } else {
        len
    };
    let mut entry = line.substring_char(0, keep).to_owned();
    proof {
        assert(line@.subrange(0, keep as int) =~= if budget - 2 < body.len() {
            body.take(budget - 2)
        } else {
            body
        });
    }
    let ghost kept = entry@;
    entry.push('\u{2026}');
    entry.push('\n');
    assert(entry@ =~= kept + seq!['\u{2026}', '\n']);
    Some(entry)
}

/// How many leading lines fit into `room` characters, one after the other.
pub open spec fn fitting(lines: Seq<Seq<char>>, room: int) -> nat
    decreases lines.len(),
{
    if lines.len() == 0 || lines[0].len() > room {
        0
    } else {
        1 + fitting(lines.skip(1), room - lines[0].len())
    }
}

/// The concatenation of lines.
pub open spec fn poured(lines: Seq<Seq<char>>) -> Seq<char>
    decreases lines.len(),
{
    if lines.len() == 0 {
        Seq::empty()
    } else {
        poured(lines.drop_last()) + lines.last()
    }
}

/// The lines of results.
pub open spec fn result_lines(results: Seq<SearchResult>, last_synth: Option<Seq<char>>) -> Seq<
    Seq<char>,
> {
    results.map_values(|result: SearchResult| result_line(result, last_synth))
}

/// What is rendered of a list of results.
pub struct PackText {
    /// The text.
    pub content: Seq<char>,
    /// How many leading results are in it.
    pub shown: nat,
    /// Whether something was cut off.
    pub truncated: bool,
}

/// The header of a pack.
pub open spec fn pack_header(title: Seq<char>) -> Seq<char> {
    "## Retrieved Memory: "@ + trimmed(title) + "\n"@
}

/// The text of a pack: the header, and as many leading lines as the budget has
/// room for, the first of them cut where it alone has no room.
pub open spec fn pack_text(title: Seq<char>, lines: Seq<Seq<char>>, max: nat) -> PackText {
    let header = pack_header(title);
    let none = "- No matching active memories.\n"@;
    let n = fitting(lines, max - header.len());
    if header.len() > max {
        PackText {
            content: crate::text::char_window(header, 0, max),
            shown: 0,
            truncated: true,
        }
    } else if lines.len() == 0 {
        if header.len() + none.len() <= max {
            PackText { content: header + none, shown: 0, truncated: false }
        } else {
            PackText { content: header, shown: 0, truncated: true }
        }
    } else if n > 0 {
        PackText {
            content: header + poured(lines.take(n as int)),
            shown: n,
            truncated: n < lines.len(),
        }
    } else {
        match cut_line(lines[0], (max - header.len()) as nat) {
            Some(entry) => PackText { content: header + entry, shown: 1, truncated: true },
            None => PackText { content: header, shown: 0, truncated: true },
        }
    }
}

/// The ids of results.
pub open spec fn result_ids(results: Seq<SearchResult>) -> Seq<Seq<char>> {
    results.map_values(|result: SearchResult| result.memory_id@)
}

/// The scores of results.
pub open spec fn result_scores(results: Seq<SearchResult>) -> Seq<Score> {
    results.map_values(|result: SearchResult| result.score)
}

/// The values behind references.
pub open spec fn behind(list: Seq<&SearchResult>) -> Seq<SearchResult> {
    list.map_values(|result: &SearchResult| *result)
}

proof fn lemma_fitting_step(lines: Seq<Seq<char>>, i: int, room: int)
    requires
        0 <= i <= lines.len(),
        i <= fitting(lines, room),
    ensures
        fitting(lines, room) == i + fitting(lines.skip(i), room - poured(lines.take(i)).len()),
    decreases i,
{
    if i == 0 {
        assert(lines.skip(0) =~= lines);
        assert(poured(lines.take(0)).len() == 0);
    } else {
        lemma_fitting_step(lines, i - 1, room);
        let taken = lines.take(i);
        assert(taken.drop_last() =~= lines.take(i - 1));
        assert(lines.skip(i - 1).skip(1) =~= lines.skip(i));
        assert(lines.skip(i - 1)[0] == lines[i - 1]);
    }
}

/// Whole lines within a budget stay within it.
proof fn lemma_fitting_is_bounded(lines: Seq<Seq<char>>, room: int)
    ensures
        fitting(lines, room) <= lines.len(),
        room >= 0 ==> poured(lines.take(fitting(lines, room) as int)).len() <= room,
    decreases lines.len(),
{
    if lines.len() == 0 || lines[0].len() > room {
        assert(poured(lines.take(0)).len() == 0);
    } else {
        lemma_fitting_is_bounded(lines.skip(1), room - lines[0].len());
        let n = fitting(lines, room);
        lemma_poured_first(lines.take(n as int));
        assert(lines.take(n as int).skip(1) =~= lines.skip(1).take(n - 1));
    }
}

proof fn lemma_poured_first(lines: Seq<Seq<char>>)
    requires
        lines.len() > 0,
    ensures
        poured(lines) == lines[0] + poured(lines.skip(1)),
    decreases lines.len(),
{
    if lines.len() == 1 {
        assert(lines.drop_last() =~= Seq::empty());
        assert(lines.skip(1) =~= Seq::empty());
        assert(poured(lines) =~= lines[0] + poured(lines.skip(1)));
    } else {
        lemma_poured_first(lines.drop_last());
        assert(lines.skip(1).drop_last() =~= lines.drop_last().skip(1));
        assert(poured(lines) =~= lines[0] + poured(lines.skip(1)));
    }
}

/// A pack never holds more characters than its budget.
pub proof fn law_pack_keeps_budget(title: Seq<char>, lines: Seq<Seq<char>>, max: nat)
    ensures
        pack_text(title, lines, max).content.len() <= max,
        pack_text(title, lines, max).shown <= lines.len(),
        pack_text(title, lines, max).shown < lines.len() ==> pack_text(title, lines, max).truncated,
{
    lemma_fitting_is_bounded(lines, max - pack_header(title).len());
}

/// Renders a pack from results, best first.
pub fn format_pack_markdown(
    request: &PackRequest,
    results: &Vec<&SearchResult>,
    last_synth: Option<&str>,
) -> (r: (String, Vec<String>, Vec<Score>, bool))
    ensures
        ({
            let lines = result_lines(behind(results@), text_of(last_synth));
            let text = pack_text(request.title@, lines, request.max_chars as nat);
            &&& r.0@ == text.content
            &&& views(r.1@) == result_ids(behind(results@)).take(text.shown as int)
            &&& r.2@ == result_scores(behind(results@)).take(text.shown as int)
            &&& r.3 == text.truncated
        }),
{
    let ghost list = behind(results@);
    let ghost lines = result_lines(list, text_of(last_synth));
    let ghost room = request.max_chars - pack_header(request.title@).len();
    let mut content = concat3("## Retrieved Memory: ", trim(request.title.as_str()), "\n");
    let mut memory_ids: Vec<String> = Vec::new();
    let mut scores: Vec<Score> = Vec::new();
    let ghost header = content@;
    assert(header == pack_header(request.title@));
    assert(views(memory_ids@) =~= result_ids(list).take(0));
    assert(scores@ =~= result_scores(list).take(0));
    proof {
        law_pack_keeps_budget(request.title@, lines, request.max_chars as nat);
        lemma_fitting_is_bounded(lines, room);
    }
    let header_len: usize = content.as_str().unicode_len();
    if header_len > request.max_chars {
        let cut = bounded_char_slice(content.as_str(), 0, request.max_chars);
        return (cut, memory_ids, scores, true);
    }
    if results.len() == 0 {
        let fits: bool = append_with_char_budget(
            &mut content,
            "- No matching active memories.\n",
            request.max_chars,
        );
        return (content, memory_ids, scores, !fits);
    }
    let n: usize = results.len();
    let mut i: usize = 0;
    let mut open: bool = true;
    while i < n && open
        invariant
            i <= n,
            n == results@.len(),
            list == behind(results@),
            lines == result_lines(list, text_of(last_synth)),
            room == request.max_chars - header.len(),
            room >= 0,
            i <= fitting(lines, room),
            content@ == header + poured(lines.take(i as int)),
            content@.len() <= request.max_chars,
            views(memory_ids@) == result_ids(list).take(i as int),
            scores@ == result_scores(list).take(i as int),
            !open ==> fitting(lines, room) == i,
        decreases n - i, if open { 1int } else { 0int },
    {
        let line = build_line(results[i], last_synth);
        let ghost before_ids = memory_ids@;
        let ghost before_scores = scores@;
        proof {
            lemma_fitting_step(lines, i as int, room);
            assert(lines[i as int] == line@);
            assert(lines.skip(i as int)[0] == line@);
        }
        if append_with_char_budget(&mut content, line.as_str(), request.max_chars) {
            proof {
                assert(lines.take(i + 1).drop_last() =~= lines.take(i as int));
                assert(content@ =~= header + poured(lines.take(i + 1)));
            }
            memory_ids.push(results[i].memory_id.clone());
            scores.push(results[i].score);
            assert(views(memory_ids@) =~= views(before_ids).push(list[i as int].memory_id@));
            assert(result_ids(list).take(i + 1) =~= result_ids(list).take(i as int).push(
                list[i as int].memory_id@,
            ));
            assert(result_scores(list).take(i + 1) =~= result_scores(list).take(i as int).push(
                list[i as int].score,
            ));
            i = i + 1;
        } else {
            open = false;
        }
    }
    proof {
        if open {
            lemma_fitting_is_bounded(lines, room);
        }
    }
    let mut truncated: bool = i < n;
    if i == 0 {
        assert(lines.take(0) =~= Seq::empty());
        assert(content@ =~= header);
        let line = build_line(results[0], last_synth);
        assert(lines[0] == line@);
        let current: usize = content.as_str().unicode_len();
        match truncate_pack_line(line.as_str(), request.max_chars - current) {
            Some(entry) => {
                content.append(entry.as_str());
                let ghost before_ids = memory_ids@;
                memory_ids.push(results[0].memory_id.clone());
                scores.push(results[0].score);
                assert(views(memory_ids@) =~= views(before_ids).push(list[0].memory_id@));
                assert(views(memory_ids@) =~= result_ids(list).take(1));
                assert(scores@ =~= result_scores(list).take(1));
                truncated = true;
            },
            None => {},
        }
    }
    (content, memory_ids, scores, truncated)
}

/// The first result of each memory, in order.
pub open spec fn first_of_each(results: Seq<SearchResult>) -> Seq<SearchResult>
    decreases results.len(),
{
    if results.len() == 0 {
        Seq::empty()
    } else {
        let before = first_of_each(results.drop_last());
        if result_ids(before).contains(results.last().memory_id@) {
            before
        } else {
            before.push(results.last())
        }
    }
}

/// The result lists of reports.
pub open spec fn result_lists(reports: Seq<SearchReport>) -> Seq<Seq<SearchResult>> {
    reports.map_values(|report: SearchReport| report.results@)
}

/// The best score in a list.
pub open spec fn best_score(scores: Seq<Score>) -> Option<Score>
    decreases scores.len(),
{
    if scores.len() == 0 {
        None
    } else {
        match best_score(scores.drop_last()) {
            Some(best) if best.key >= scores.last().key => Some(best),
            _ => Some(scores.last()),
        }
    }
}

/// The pack built from what each query found: the queries take turns by rank,
/// each memory is kept where it first appears, and the best score decides whether
/// anything is injected.
pub open spec fn built_pack(
    request: PackRequest,
    reports: Seq<SearchReport>,
    last_synth: Option<Seq<char>>,
) -> PackModel {
    let all = first_of_each(interleaved(result_lists(reports)));
    let kept = if all.len() > request.max_memories {
        all.take(request.max_memories as int)
    } else {
        all
    };
    let top = best_score(result_scores(kept));
    let text = pack_text(
        request.title@,
        result_lines(kept, last_synth),
        request.max_chars as nat,
    );
    if top is Some && top->0.key < request.min_score.key {
        empty_model(request)
    } else {
        PackModel {
            title: request.title@,
            format: request.format@,
            content: text.content,
            memory_ids: result_ids(kept).take(text.shown as int),
            scores: result_scores(kept).take(text.shown as int),
            truncated: (exists|i: int| 0 <= i < reports.len() && (#[trigger] reports[i]).truncated)
                || all.len() > request.max_memories || text.truncated,
            top_score: top,
        }
    }
}

fn holds_id(list: &Vec<&SearchResult>, id: &str) -> (r: bool)
    ensures
        r == result_ids(behind(list@)).contains(id@),
{
    for i in 0..list.len()
        invariant
            forall|k: int| 0 <= k < i ==> (#[trigger] behind(list@)[k]).memory_id@ != id@,
    {
        if text_eq(list[i].memory_id.as_str(), id) {
            assert(result_ids(behind(list@))[i as int] == id@);
            return true;
        }
    }
    proof {
        if result_ids(behind(list@)).contains(id@) {
            let k = choose|k: int|
                0 <= k < result_ids(behind(list@)).len() && result_ids(behind(list@))[k] == id@;
            assert(behind(list@)[k].memory_id@ == id@);
        }
    }
    false
}

fn longest_report(reports: &Vec<SearchReport>) -> (r: usize)
    ensures
        r == longest(result_lists(reports@)),
{
    let mut most: usize = 0;
    let ghost lists = result_lists(reports@);
    assert(lists.take(0) =~= Seq::empty());
    for i in 0..reports.len()
        invariant
            lists == result_lists(reports@),
            most == longest(lists.take(i as int)),
    {
        assert(lists.take(i + 1).drop_last() =~= lists.take(i as int));
        assert(lists.take(i + 1).last() == reports@[i as int].results@);
        if reports[i].results.len() > most {
            most = reports[i].results.len();
        }
    }
    assert(lists.take(reports@.len() as int) =~= lists);
    most
}

/// The first result of each memory, the queries taking turns by rank.
fn unique_results<'a>(reports: &'a Vec<SearchReport>) -> (r: Vec<&'a SearchResult>)
    ensures
        behind(r@) == first_of_each(interleaved(result_lists(reports@))),
{
    let ghost lists = result_lists(reports@);
    let ranks: usize = longest_report(reports);
    let count: usize = reports.len();
    let mut out: Vec<&'a SearchResult> = Vec::new();
    assert(behind(out@) =~= first_of_each(round_robin(lists, 0)));
    for rank in 0..ranks
        invariant
            lists == result_lists(reports@),
            count == reports@.len(),
            behind(out@) == first_of_each(round_robin(lists, rank as nat)),
    {
        let ghost start = round_robin(lists, rank as nat);
        assert(lists.take(0) =~= Seq::empty());
        assert(start + rank_row(lists.take(0), rank as int) =~= start);
        for q in 0..count
            invariant
                lists == result_lists(reports@),
                count == reports@.len(),
                start == round_robin(lists, rank as nat),
                behind(out@) == first_of_each(
                    start + rank_row(lists.take(q as int), rank as int),
                ),
        {
            let ghost row = rank_row(lists.take(q as int), rank as int);
            assert(lists.take(q + 1).drop_last() =~= lists.take(q as int));
            assert(lists.take(q + 1).last() == reports@[q as int].results@);
            let results = &reports[q].results;
            if rank < results.len() {
                let result = &results[rank];
                let ghost grown = start + row.push(*result);
                assert(rank_row(lists.take(q + 1), rank as int) == row.push(*result));
                assert(grown.drop_last() =~= start + row);
                let ghost before = out@;
                if !holds_id(&out, result.memory_id.as_str()) {
                    out.push(result);
                    assert(behind(out@) =~= behind(before).push(*result));
                }
            }
        }
        assert(lists.take(count as int) =~= lists);
    }
    out
}

fn top_of(list: &Vec<&SearchResult>) -> (r: Option<Score>)
    ensures
        r == best_score(result_scores(behind(list@))),
{
    let ghost scores = result_scores(behind(list@));
    let mut top: Option<Score> = None;
    assert(scores.take(0) =~= Seq::empty());
    for i in 0..list.len()
        invariant
            scores == result_scores(behind(list@)),
            top == best_score(scores.take(i as int)),
    {
        assert(scores.take(i + 1).drop_last() =~= scores.take(i as int));
        assert(scores.take(i + 1).last() == list@[i as int].score);
        let score = list[i].score;
        match top {
            Some(best) => {
                if best.key < score.key {
                    top = Some(score);
                }
            },
            None => {
                top = Some(score);
            },
        }
    }
    assert(scores.take(list@.len() as int) =~= scores);
    top
}

/// Builds a prompt pack from what each query found, in the order of the queries.
pub fn build_pack(
    request: &PackRequest,
    reports: &Vec<SearchReport>,
    last_synth: Option<&str>,
) -> (r: Result<PackReport, Error>)
    ensures
        match r {
            Ok(pack) => pack_fault(*request) is None && pack@ == built_pack(
                *request,
                reports@,
                text_of(last_synth),
            ),
            Err(e) => pack_fault(*request) == Some(e@),
        },
{
    if let Err(e) = validate_pack_request(request) {
        return Err(e);
    }
    Ok(assemble_pack(request, reports, last_synth))
}

fn assemble_pack(
    request: &PackRequest,
    reports: &Vec<SearchReport>,
    last_synth: Option<&str>,
) -> (r: PackReport)
    ensures
        r@ == built_pack(*request, reports@, text_of(last_synth)),
{
    let mut unique = unique_results(reports);
    let ghost all = behind(unique@);
    let mut truncated: bool = false;
    for i in 0..reports.len()
        invariant
            truncated == exists|k: int| 0 <= k < i && (#[trigger] reports@[k]).truncated,
    {
        if reports[i].truncated {
            truncated = true;
        }
    }
    if unique.len() > request.max_memories {
        truncated = true;
        unique.truncate(request.max_memories);
        assert(behind(unique@) =~= all.take(request.max_memories as int));
    }
    let ghost kept = behind(unique@);
    let top_score = top_of(&unique);
    if let Some(top) = top_score {
        if top.key < request.min_score.key {
            return empty_pack(request);
        }
    }
    let (content, memory_ids, scores, text_truncated) = format_pack_markdown(
        request,
        &unique,
        last_synth,
    );
    PackReport {
        title: request.title.clone(),
        format: request.format.clone(),
        content,
        memory_ids,
        scores,
        truncated: truncated || text_truncated,
        top_score,
    }
}

proof fn lemma_first_of_each_distinct(results: Seq<SearchResult>)
    ensures
        result_ids(first_of_each(results)).no_duplicates(),
    decreases results.len(),
{
    if results.len() > 0 {
        let before = first_of_each(results.drop_last());
        lemma_first_of_each_distinct(results.drop_last());
        if !result_ids(before).contains(results.last().memory_id@) {
            let after = before.push(results.last());
            assert(result_ids(after) =~= result_ids(before).push(results.last().memory_id@));
        }
    }
}

/// A built pack lists each memory once with its score beside it, and stays
/// within the number of memories and the characters asked for.
pub proof fn law_built_pack_is_aligned(
    request: PackRequest,
    reports: Seq<SearchReport>,
    last_synth: Option<Seq<char>>,
)
    ensures
        ({
            let pack = built_pack(request, reports, last_synth);
            &&& pack.memory_ids.len() == pack.scores.len()
            &&& pack.memory_ids.no_duplicates()
            &&& pack.memory_ids.len() <= request.max_memories
            &&& pack.content.len() <= request.max_chars
        }),
{
    let all = first_of_each(interleaved(result_lists(reports)));
    let kept = if all.len() > request.max_memories {
        all.take(request.max_memories as int)
    } else {
        all
    };
    lemma_first_of_each_distinct(interleaved(result_lists(reports)));
    let lines = result_lines(kept, last_synth);
    law_pack_keeps_budget(request.title@, lines, request.max_chars as nat);
    let shown = pack_text(request.title@, lines, request.max_chars as nat).shown;
    assert forall|i: int, j: int| 0 <= i < j < kept.len() implies result_ids(kept)[i]
        != result_ids(kept)[j] by {
        assert(result_ids(all)[i] == result_ids(kept)[i]);
        assert(result_ids(all)[j] == result_ids(kept)[j]);
    }
}

} // verus!
