//! The sentence corpus that nearest-neighbour hits point into, and the
//! assembly of a context block from those hits.

use vstd::prelude::*;

use crate::text::{
    chars_of, collapse_blank_lines, collapse_blank_lines_chars, has_no_blank_line, join_all,
    join_with, joined, lemma_collapse_no_blank_line, string_of, trim_chars, trimmed, views,
};

verus! {

/// How many nearest neighbours a live question asks the vector index for.
pub const NEAREST_LIMIT: usize = 10;

/// How many sentences before a hit its passage reaches back.
pub const WINDOW_BEFORE: u32 = 3;

/// How many sentences after a hit its passage reaches forward.
pub const WINDOW_AFTER: u32 = 5;

/// One stored sentence: its row identifier in the embedding index, the
/// document it belongs to, and its ordinal position within that document.
#[derive(Debug, Clone)]
pub struct SentenceRecord {
    pub id: u64,
    pub document_id: u64,
    pub position: u32,
    pub text: String,
}

/// Why a context block could not be assembled.
#[derive(Debug, Clone, Copy, PartialEq, Eq, Structural)]
pub enum ContextError {
    /// A hit names a sentence that the corpus does not hold.
    UnknownSentence { id: u64 },
}

/// The records of `rows` in document `doc` at position `pos`, in the order
/// in which `rows` holds them.
pub open spec fn rows_at(rows: Seq<SentenceRecord>, doc: u64, pos: int) -> Seq<SentenceRecord>
    decreases rows.len(),
{
    if rows.len() == 0 {
        Seq::empty()
    } else {
        let prev = rows_at(rows.drop_last(), doc, pos);
        if rows.last().document_id == doc && rows.last().position == pos {
            prev.push(rows.last())
        } else {
            prev
        }
    }
}

/// The records of document `doc` whose position lies in `lo ..= hi`, by
/// ascending position.
pub open spec fn rows_between(rows: Seq<SentenceRecord>, doc: u64, lo: int, hi: int) -> Seq<
    SentenceRecord,
>
    decreases hi - lo + 1,
{
    if hi < lo {
        Seq::empty()
    } else {
        rows_between(rows, doc, lo, hi - 1) + rows_at(rows, doc, hi)
    }
}

/// The first position of the window around a hit at `p` (no position is
/// negative).
pub open spec fn window_first(p: u32) -> int {
    if p >= WINDOW_BEFORE {
        p - WINDOW_BEFORE
    } else {
        0
    }
}

/// The last position of the window around a hit at `p`.
pub open spec fn window_last(p: u32) -> int {
    p + WINDOW_AFTER
}

/// The records that make up the passage around a hit at position `p` of
/// document `doc`.
pub open spec fn window_rows(rows: Seq<SentenceRecord>, doc: u64, p: u32) -> Seq<SentenceRecord> {
    rows_between(rows, doc, window_first(p), window_last(p))
}

/// The texts of a sequence of records.
pub open spec fn texts_of(rows: Seq<SentenceRecord>) -> Seq<Seq<char>> {
    rows.map_values(|r: SentenceRecord| r.text@)
}

/// The first record of `rows` with identifier `id`.
pub open spec fn lookup(rows: Seq<SentenceRecord>, id: u64) -> Option<SentenceRecord>
    decreases rows.len(),
{
    if rows.len() == 0 {
        None
    } else {
        match lookup(rows.drop_last(), id) {
            Some(r) => Some(r),
            None => if rows.last().id == id {
                Some(rows.last())
            } else {
                None
            },
        }
    }
}

/// The passage for a hit: the window's texts joined by line breaks, trimmed,
/// with each run of line breaks collapsed to one.
pub open spec fn passage_of(rows: Seq<SentenceRecord>, hit: SentenceRecord) -> Seq<char> {
    collapse_blank_lines(
        trimmed(joined(texts_of(window_rows(rows, hit.document_id, hit.position)), seq!['\n'])),
    )
}

/// Every hit names a record of `rows`.
pub open spec fn all_known(rows: Seq<SentenceRecord>, hits: Seq<u64>) -> bool {
    forall|k: int| 0 <= k < hits.len() ==> (#[trigger] lookup(rows, hits[k])) is Some
}

/// The passages of the hits, in hit order.
pub open spec fn passages_of(rows: Seq<SentenceRecord>, hits: Seq<u64>) -> Seq<Seq<char>> {
    hits.map_values(|h: u64| passage_of(rows, lookup(rows, h)->0))
}

/// The context block: the passages in hit order, separated by blank lines.
pub open spec fn context_of(rows: Seq<SentenceRecord>, hits: Seq<u64>) -> Seq<char> {
    joined(passages_of(rows, hits), seq!['\n', '\n'])
}

/// The records at one position are exactly the records of `rows` in that
/// document at that position.
proof fn lemma_rows_at(rows: Seq<SentenceRecord>, doc: u64, pos: int)
    ensures
        forall|k: int|
            0 <= k < rows_at(rows, doc, pos).len() ==> {
                let r = #[trigger] rows_at(rows, doc, pos)[k];
                &&& rows.contains(r)
                &&& r.document_id == doc
                &&& r.position == pos
            },
        forall|i: int|
            0 <= i < rows.len() && rows[i].document_id == doc && rows[i].position == pos
                ==> rows_at(rows, doc, pos).contains(#[trigger] rows[i]),
    decreases rows.len(),
{
    if rows.len() > 0 {
        let front = rows.drop_last();
        lemma_rows_at(front, doc, pos);
        let prev = rows_at(front, doc, pos);
        assert forall|k: int| 0 <= k < rows_at(rows, doc, pos).len() implies {
            let r = #[trigger] rows_at(rows, doc, pos)[k];
            &&& rows.contains(r)
            &&& r.document_id == doc
            &&& r.position == pos
        } by {
            if k < prev.len() {
                let r = prev[k];
                let i = choose|i: int| 0 <= i < front.len() && front[i] == r;
                assert(rows[i] == r);
            } else {
                assert(rows[rows.len() - 1] == rows.last());
            }
        }
        assert forall|i: int|
            0 <= i < rows.len() && rows[i].document_id == doc && rows[i].position
                == pos implies rows_at(rows, doc, pos).contains(#[trigger] rows[i]) by {
            if i < front.len() {
                assert(front[i] == rows[i]);
                let k = choose|k: int| 0 <= k < prev.len() && prev[k] == rows[i];
                assert(rows_at(rows, doc, pos)[k] == rows[i]);
            } else {
                assert(rows_at(rows, doc, pos).last() == rows[i]);
            }
        }
    }
}

/// The records between two positions are exactly the records of `rows` in
/// that document within those positions, by ascending position.
proof fn lemma_rows_between(rows: Seq<SentenceRecord>, doc: u64, lo: int, hi: int)
    ensures
        forall|k: int|
            0 <= k < rows_between(rows, doc, lo, hi).len() ==> {
                let r = #[trigger] rows_between(rows, doc, lo, hi)[k];
                &&& rows.contains(r)
                &&& r.document_id == doc
                &&& lo <= r.position <= hi
            },
        forall|k1: int, k2: int|
            0 <= k1 < k2 < rows_between(rows, doc, lo, hi).len() ==> (#[trigger] rows_between(
                rows,
                doc,
                lo,
                hi,
            )[k1]).position <= (#[trigger] rows_between(rows, doc, lo, hi)[k2]).position,
        forall|i: int|
            0 <= i < rows.len() && rows[i].document_id == doc && lo <= rows[i].position <= hi
                ==> rows_between(rows, doc, lo, hi).contains(#[trigger] rows[i]),
    decreases hi - lo + 1,
{
    if hi >= lo {
        lemma_rows_between(rows, doc, lo, hi - 1);
        lemma_rows_at(rows, doc, hi);
        let prev = rows_between(rows, doc, lo, hi - 1);
        let here = rows_at(rows, doc, hi);
        let all = rows_between(rows, doc, lo, hi);
        assert(all == prev + here);
        assert forall|k: int| 0 <= k < all.len() implies {
            let r = #[trigger] all[k];
            &&& rows.contains(r)
            &&& r.document_id == doc
            &&& lo <= r.position <= hi
        } by {
            if k < prev.len() {
                assert(all[k] == prev[k]);
            } else {
                assert(all[k] == here[k - prev.len()]);
            }
        }
        assert forall|k1: int, k2: int| 0 <= k1 < k2 < all.len() implies (#[trigger] all[k1]).position
            <= (#[trigger] all[k2]).position by {
            if k2 < prev.len() {
                assert(all[k1] == prev[k1] && all[k2] == prev[k2]);
            } else if k1 < prev.len() {
                assert(all[k1] == prev[k1] && all[k2] == here[k2 - prev.len()]);
            } else {
                assert(all[k1] == here[k1 - prev.len()] && all[k2] == here[k2 - prev.len()]);
            }
        }
        assert forall|i: int|
            0 <= i < rows.len() && rows[i].document_id == doc && lo <= rows[i].position
                <= hi implies all.contains(#[trigger] rows[i]) by {
            if rows[i].position < hi {
                let k = choose|k: int| 0 <= k < prev.len() && prev[k] == rows[i];
                assert(all[k] == rows[i]);
            } else {
                let k = choose|k: int| 0 <= k < here.len() && here[k] == rows[i];
                assert(all[prev.len() + k] == rows[i]);
            }
        }
    }
}

/// The passage around a hit at position `p` of document `doc` is made of
/// exactly the records of that document whose position lies from `p - 3` to
/// `p + 5`, by ascending position; fewer where the document has no sentence
/// at some of those positions.
pub proof fn lemma_window(rows: Seq<SentenceRecord>, doc: u64, p: u32)
    ensures
        forall|k: int|
            0 <= k < window_rows(rows, doc, p).len() ==> {
                let r = #[trigger] window_rows(rows, doc, p)[k];
                &&& rows.contains(r)
                &&& r.document_id == doc
                &&& p - 3 <= r.position <= p + 5
            },
        forall|k1: int, k2: int|
            0 <= k1 < k2 < window_rows(rows, doc, p).len() ==> (#[trigger] window_rows(
                rows,
                doc,
                p,
            )[k1]).position <= (#[trigger] window_rows(rows, doc, p)[k2]).position,
        forall|i: int|
            0 <= i < rows.len() && rows[i].document_id == doc && p - 3 <= rows[i].position <= p + 5
                ==> window_rows(rows, doc, p).contains(#[trigger] rows[i]),
{
    lemma_rows_between(rows, doc, window_first(p), window_last(p));
}

proof fn lemma_rows_between_numbered(
    rows: Seq<SentenceRecord>,
    doc: u64,
    ts: Seq<Seq<char>>,
    lo: int,
    hi: int,
)
    requires
        0 <= lo,
        forall|q: int| 0 <= q < ts.len() ==> texts_of(#[trigger] rows_at(rows, doc, q)) == seq![ts[q]],
        forall|q: int| q >= ts.len() ==> (#[trigger] rows_at(rows, doc, q)).len() == 0,
    ensures
        lo <= ts.len() ==> texts_of(rows_between(rows, doc, lo, hi)) == ts.subrange(
            lo,
            if hi + 1 < lo {
                lo
            } else if hi + 1 < ts.len() {
                hi + 1
            } else {
                ts.len() as int
            },
        ),
        lo > ts.len() ==> texts_of(rows_between(rows, doc, lo, hi)) == Seq::<Seq<char>>::empty(),
    decreases hi - lo + 1,
{
    if hi >= lo {
        lemma_rows_between_numbered(rows, doc, ts, lo, hi - 1);
        let prev = rows_between(rows, doc, lo, hi - 1);
        let here = rows_at(rows, doc, hi);
        assert(texts_of(prev + here) =~= texts_of(prev) + texts_of(here));
        if hi < ts.len() {
            assert(texts_of(here) == seq![ts[hi]]);
            assert(ts.subrange(lo, hi) + seq![ts[hi]] =~= ts.subrange(lo, hi + 1));
        } else {
            assert(texts_of(here) =~= Seq::<Seq<char>>::empty());
        }
    } else {
        assert(texts_of(rows_between(rows, doc, lo, hi)) =~= Seq::<Seq<char>>::empty());
    }
}

/// In a document with one sentence at each position `0 .. ts.len()`, whose
/// texts are `ts`, the window around a hit at `p` holds the texts from
/// position `p - 3` (at least 0) to `p + 5` (at most the last position), in
/// ascending order; for a hit at 10 in a document of 21 sentences, those at
/// 7 to 15.
pub proof fn lemma_window_of_numbered_document(
    rows: Seq<SentenceRecord>,
    doc: u64,
    ts: Seq<Seq<char>>,
    p: u32,
)
    requires
        p < ts.len(),
        forall|q: int| 0 <= q < ts.len() ==> texts_of(#[trigger] rows_at(rows, doc, q)) == seq![ts[q]],
        forall|q: int| q >= ts.len() ==> (#[trigger] rows_at(rows, doc, q)).len() == 0,
    ensures
        texts_of(window_rows(rows, doc, p)) == ts.subrange(
            if p >= 3 {
                p - 3
            } else {
                0
            },
            if p + 6 < ts.len() {
                p + 6
            } else {
                ts.len() as int
            },
        ),
{
    lemma_rows_between_numbered(rows, doc, ts, window_first(p), window_last(p));
}

/// A passage holds no blank line, so the blank lines of a context block are
/// exactly the separators between its passages.
pub proof fn lemma_passage_has_no_blank_line(rows: Seq<SentenceRecord>, hit: SentenceRecord)
    ensures
        has_no_blank_line(passage_of(rows, hit)),
{
    lemma_collapse_no_blank_line(
        trimmed(joined(texts_of(window_rows(rows, hit.document_id, hit.position)), seq!['\n'])),
    );
}

/// The context depends on nothing but the corpus and the hits: the same
/// corpus and hits give the same context, character for character.
pub proof fn lemma_context_deterministic(
    rows1: Seq<SentenceRecord>,
    hits1: Seq<u64>,
    rows2: Seq<SentenceRecord>,
    hits2: Seq<u64>,
)
    requires
        rows1 == rows2,
        hits1 == hits2,
    ensures
        context_of(rows1, hits1) == context_of(rows2, hits2),
        all_known(rows1, hits1) == all_known(rows2, hits2),
{
}

/// Appends to `out` the texts of the records of `doc` at position `pos`.
fn push_texts_at(rows: &Vec<SentenceRecord>, doc: u64, pos: u64, out: &mut Vec<String>)
    ensures
        views(final(out)@) == views(old(out)@) + texts_of(rows_at(rows@, doc, pos as int)),
{
    let ghost start = views(out@);
    let mut i: usize = 0;
    assert(rows_at(rows@.subrange(0, 0), doc, pos as int) =~= Seq::<SentenceRecord>::empty());
    assert(views(out@) =~= start + texts_of(Seq::<SentenceRecord>::empty()));
    while i < rows.len()
        invariant
            i <= rows@.len(),
            views(out@) == start + texts_of(rows_at(rows@.subrange(0, i as int), doc, pos as int)),
        decreases rows@.len() - i,
    {
        let ghost before = out@;
        let ghost prefix = rows@.subrange(0, i + 1);
        assert(prefix.drop_last() =~= rows@.subrange(0, i as int));
        if rows[i].document_id == doc && rows[i].position as u64 == pos {
            let t = rows[i].text.clone();
            out.push(t);
            assert(views(out@) =~= views(before).push(rows@[i as int].text@));
            assert(texts_of(rows_at(prefix, doc, pos as int)) =~= texts_of(
                rows_at(rows@.subrange(0, i as int), doc, pos as int),
            ).push(rows@[i as int].text@));
        }
        i = i + 1;
    }
    assert(rows@.subrange(0, rows@.len() as int) =~= rows@);
}

/// The texts of the window around a hit at position `p` of document `doc`,
/// by ascending position.
pub fn window_texts(rows: &Vec<SentenceRecord>, doc: u64, p: u32) -> (r: Vec<String>)
    ensures
        views(r@) == texts_of(window_rows(rows@, doc, p)),
{
    let lo: u64 = if p >= WINDOW_BEFORE {
        (p - WINDOW_BEFORE) as u64
    } else {
        0
    };
    let hi: u64 = p as u64 + WINDOW_AFTER as u64;
    let mut out: Vec<String> = Vec::new();
    let mut pos: u64 = lo;
    assert(views(out@) =~= texts_of(rows_between(rows@, doc, lo as int, lo - 1)));
    while pos <= hi
        invariant
            lo <= pos <= hi + 1,
            hi == p + WINDOW_AFTER,
            lo == window_first(p),
            views(out@) == texts_of(rows_between(rows@, doc, lo as int, pos - 1)),
        decreases hi + 1 - pos,
    {
        let ghost before = views(out@);
        push_texts_at(rows, doc, pos, &mut out);
        assert(texts_of(rows_between(rows@, doc, lo as int, pos as int)) =~= texts_of(
            rows_between(rows@, doc, lo as int, pos - 1),
        ) + texts_of(rows_at(rows@, doc, pos as int)));
        pos = pos + 1;
    }
    out
}

/// Once a prefix of `rows` holds a record with identifier `id`, what comes
/// after it does not change the lookup.
proof fn lemma_lookup_prefix(rows: Seq<SentenceRecord>, n: int, id: u64)
    requires
        0 <= n <= rows.len(),
        lookup(rows.subrange(0, n), id) is Some,
    ensures
        lookup(rows, id) == lookup(rows.subrange(0, n), id),
    decreases rows.len(),
{
    if rows.len() == n {
        assert(rows.subrange(0, n) =~= rows);
    } else {
        assert(rows.drop_last().subrange(0, n) =~= rows.subrange(0, n));
        lemma_lookup_prefix(rows.drop_last(), n, id);
    }
}

/// The index of the first record of `rows` with identifier `id`.
fn find_sentence(rows: &Vec<SentenceRecord>, id: u64) -> (r: Option<usize>)
    ensures
        match r {
            Some(i) => i < rows@.len() && lookup(rows@, id) == Some(rows@[i as int]),
            None => lookup(rows@, id) is None,
        },
{
    let mut i: usize = 0;
    assert(rows@.subrange(0, 0) =~= Seq::<SentenceRecord>::empty());
    while i < rows.len()
        invariant
            i <= rows@.len(),
            lookup(rows@.subrange(0, i as int), id) is None,
        decreases rows@.len() - i,
    {
        assert(rows@.subrange(0, i + 1).drop_last() =~= rows@.subrange(0, i as int));
        if rows[i].id == id {
            proof {
                lemma_lookup_prefix(rows@, i + 1, id);
            }
            return Some(i);
        }
        i = i + 1;
    }
    assert(rows@.subrange(0, rows@.len() as int) =~= rows@);
    None
}

/// The passage around `hit`: `passage_of(rows@, *hit)`.
fn passage(rows: &Vec<SentenceRecord>, hit: &SentenceRecord) -> (r: String)
    ensures
        r@ == passage_of(rows@, *hit),
{
    let texts = window_texts(rows, hit.document_id, hit.position);
    let line = "\n";
    proof {
        reveal_strlit("\n");
    }
    assert(line@ =~= seq!['\n']);
    let text = join_with(&texts, line);
    let all = chars_of(text.as_str());
    let core = trim_chars(&all);
    let collapsed = collapse_blank_lines_chars(&core);
    string_of(&collapsed)
}

/// Why a record could not be added to the corpus.
#[derive(Debug, Clone, Copy, PartialEq, Eq, Structural)]
pub enum CorpusError {
    /// Another record with a different text already has this identifier.
    DuplicateId { id: u64 },
}

/// Identifiers are unique, and so are texts.
pub open spec fn corpus_wf(rows: Seq<SentenceRecord>) -> bool {
    &&& forall|i: int, j: int|
        0 <= i < rows.len() && 0 <= j < rows.len() && i != j ==> rows[i].id != rows[j].id
    &&& forall|i: int, j: int|
        0 <= i < rows.len() && 0 <= j < rows.len() && i != j ==> rows[i].text@ != rows[j].text@
}

/// Whether some record of `rows` has text `t`.
pub open spec fn has_text(rows: Seq<SentenceRecord>, t: Seq<char>) -> bool {
    exists|i: int| 0 <= i < rows.len() && rows[i].text@ == t
}

/// Whether some record of `rows` has identifier `id`.
pub open spec fn has_id(rows: Seq<SentenceRecord>, id: u64) -> bool {
    exists|i: int| 0 <= i < rows.len() && rows[i].id == id
}

/// The records after adding `record` to `rows`, and what the insertion
/// reports.
pub open spec fn insert_result(rows: Seq<SentenceRecord>, record: SentenceRecord) -> (Seq<
    SentenceRecord,
>, Result<bool, CorpusError>) {
    if has_text(rows, record.text@) {
        (rows, Ok(false))
    } else if has_id(rows, record.id) {
        (rows, Err(CorpusError::DuplicateId { id: record.id }))
    } else {
        (rows.push(record), Ok(true))
    }
}

/// The sentences of the corpus with their document positions. Each text is
/// stored once, and each identifier names one record.
pub struct SentenceStore {
    rows: Vec<SentenceRecord>,
}

impl View for SentenceStore {
    type V = Seq<SentenceRecord>;

    closed spec fn view(&self) -> Seq<SentenceRecord> {
        self.rows@
    }
}

impl SentenceStore {
    /// Identifiers and texts are unique.
    pub open spec fn wf(&self) -> bool {
        corpus_wf(self@)
    }

    /// An empty corpus.
    pub fn new() -> (r: SentenceStore)
        ensures
            r@ == Seq::<SentenceRecord>::empty(),
            r.wf(),
    {
        SentenceStore { rows: Vec::new() }
    }

    /// The number of records.
    pub fn len(&self) -> (r: usize)
        ensures
            r == self@.len(),
    {
        self.rows.len()
    }

    /// Adds a record. A text that is already stored leaves the store as it
    /// is and gives `Ok(false)`; an identifier already in use by another text
    /// is refused; otherwise the record is appended and `Ok(true)` returned.
    pub fn insert(&mut self, record: SentenceRecord) -> (r: Result<bool, CorpusError>)
        requires
            old(self).wf(),
        ensures
            final(self).wf(),
            final(self)@ == insert_result(old(self)@, record).0,
            r == insert_result(old(self)@, record).1,
    {
        let mut i: usize = 0;
        let mut id_used = false;
        while i < self.rows.len()
            invariant
                self.wf(),
                i <= self.rows@.len(),
                forall|j: int| 0 <= j < i ==> self.rows@[j].text@ != record.text@,
                id_used <==> exists|j: int| 0 <= j < i && self.rows@[j].id == record.id,
            decreases self.rows@.len() - i,
        {
            if self.rows[i].text == record.text {
                return Ok(false);
            }
            if self.rows[i].id == record.id {
                id_used = true;
            }
            i = i + 1;
        }
        if id_used {
            return Err(CorpusError::DuplicateId { id: record.id });
        }
        self.rows.push(record);
        Ok(true)
    }

    /// The context block for the hits, nearest first: one passage per hit,
    /// separated by blank lines. Fails on the first hit that names no
    /// record.
    pub fn assemble_context(&self, hits: &Vec<u64>) -> (r: Result<String, ContextError>)
        ensures
            r is Ok <==> all_known(self@, hits@),
            match r {
                Ok(c) => c@ == context_of(self@, hits@),
                Err(ContextError::UnknownSentence { id }) => exists|k: int|
                    0 <= k < hits@.len() && hits@[k] == id && lookup(self@, id) is None && forall|
                        j: int,
                    |
                        0 <= j < k ==> (#[trigger] lookup(self@, hits@[j])) is Some,
            },
    {
        let rows = &self.rows;
        let mut found: Vec<String> = Vec::new();
        let mut k: usize = 0;
        while k < hits.len()
            invariant
                k <= hits@.len(),
                forall|j: int| 0 <= j < k ==> (#[trigger] lookup(rows@, hits@[j])) is Some,
                views(found@) == passages_of(rows@, hits@.subrange(0, k as int)),
                rows@ == self@,
            decreases hits@.len() - k,
        {
            match find_sentence(rows, hits[k]) {
                None => {
                    return Err(ContextError::UnknownSentence { id: hits[k] });
                },
                Some(i) => {
                    let p = passage(rows, &rows[i]);
                    let ghost before = views(found@);
                    found.push(p);
                    assert(views(found@) =~= before.push(p@));
                    assert(passages_of(rows@, hits@.subrange(0, k + 1)) =~= passages_of(
                        rows@,
                        hits@.subrange(0, k as int),
                    ).push(passage_of(rows@, lookup(rows@, hits@[k as int])->0)));
                },
            }
            k = k + 1;
        }
        assert(hits@.subrange(0, hits@.len() as int) =~= hits@);
        let blank = "\n\n";
        proof {
            reveal_strlit("\n\n");
        }
        assert(blank@ =~= seq!['\n', '\n']);
        Ok(join_all(&found, blank))
    }
}

} // verus!
