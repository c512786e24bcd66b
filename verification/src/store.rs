//! The in-memory vector store and its similarity-ranked top-k query.
//!
//! The store maps document identifiers to `(embedding, document)` pairs.
//! Inserting an existing identifier replaces the whole entry in place;
//! every stored embedding shares one dimensionality, established by the
//! first successful insertion. A query scores every entry against the
//! query embedding by exact cosine comparison and returns the documents
//! of the `k` best-scoring entries in descending similarity order,
//! breaking ties by insertion order, so results are deterministic.

use crate::embedding::{dot, norm_sq, Embedding};
use crate::errors::RagError;
use crate::similarity::{ranks_ahead, SCORE_BOUND};
use vstd::prelude::*;

verus! {

/// One source document: an identifier and its extracted text.
#[derive(Debug, PartialEq, Eq)]
pub struct Document {
    pub id: String,
    pub content: String,
}

/// One store entry: the key under which it was inserted, the embedding
/// it is ranked by, and the document it delivers.
pub struct StoreEntry {
    pub id: String,
    pub embedding: Embedding,
    pub document: Document,
}

/// The store's internal invariant over its sequence of entries: keys
/// are unique and all embeddings share one dimensionality.
pub open spec fn entries_wf(s: Seq<StoreEntry>) -> bool {
    &&& forall|a: int, b: int|
        0 <= a < b < s.len() ==> #[trigger] s[a].id@ != #[trigger] s[b].id@
    &&& forall|a: int, b: int|
        0 <= a < s.len() && 0 <= b < s.len() ==> #[trigger] s[a].embedding@.len()
            == #[trigger] s[b].embedding@.len()
}

/// Whether some entry carries this identifier.
pub open spec fn has_id(s: Seq<StoreEntry>, id: Seq<char>) -> bool {
    exists|i: int| 0 <= i < s.len() && #[trigger] s[i].id@ == id
}

/// Position of the first entry carrying this identifier, or -1.
pub open spec fn index_of_id(s: Seq<StoreEntry>, id: Seq<char>) -> int
    decreases s.len(),
{
    if s.len() == 0 {
        -1
    } else if s[0].id@ == id {
        0
    } else {
        let r = index_of_id(s.drop_first(), id);
        if r < 0 {
            -1
        } else {
            r + 1
        }
    }
}

proof fn lemma_index_of_id_found(s: Seq<StoreEntry>, id: Seq<char>, j: int)
    requires
        0 <= j < s.len(),
        s[j].id@ == id,
        forall|jj: int| 0 <= jj < j ==> #[trigger] s[jj].id@ != id,
    ensures
        index_of_id(s, id) == j,
    decreases j,
{
    if j == 0 {
    } else {
        assert(s[0].id@ != id);
        lemma_index_of_id_found(s.drop_first(), id, j - 1);
    }
}

proof fn lemma_index_of_id_none(s: Seq<StoreEntry>, id: Seq<char>)
    requires
        forall|jj: int| 0 <= jj < s.len() ==> #[trigger] s[jj].id@ != id,
    ensures
        index_of_id(s, id) == -1,
    decreases s.len(),
{
    if s.len() > 0 {
        lemma_index_of_id_none(s.drop_first(), id);
    }
}

/// Dot product of the query with entry `i`'s embedding.
pub open spec fn entry_dot(s: Seq<StoreEntry>, q: Seq<i64>, i: int) -> int {
    dot(q, s[i].embedding@)
}

/// Squared norm of entry `i`'s embedding.
pub open spec fn entry_norm(s: Seq<StoreEntry>, i: int) -> int {
    norm_sq(s[i].embedding@)
}

/// Whether entry `i` outranks entry `j` against query `q`: strictly
/// higher cosine similarity, or equal similarity and earlier insertion.
pub open spec fn entry_ranks_ahead(s: Seq<StoreEntry>, q: Seq<i64>, i: int, j: int) -> bool {
    ranks_ahead(entry_dot(s, q, i), entry_norm(s, i), i, entry_dot(s, q, j), entry_norm(s, j), j)
}

/// Entry index `i` placed into an already ranked index sequence `ord`:
/// it goes in front of the first index it outranks, behind everything
/// it does not.
pub open spec fn insert_ranked(s: Seq<StoreEntry>, q: Seq<i64>, ord: Seq<int>, i: int) -> Seq<int>
    decreases ord.len(),
{
    if ord.len() == 0 {
        seq![i]
    } else if entry_ranks_ahead(s, q, i, ord[0]) {
        seq![i] + ord
    } else {
        seq![ord[0]] + insert_ranked(s, q, ord.drop_first(), i)
    }
}

/// Ranked order of the first `n` entries of the store against query
/// `q`: a stable insertion sort of the indices `0 .. n` by descending
/// similarity. This is a function of the store contents and the query
/// alone, so query results are deterministic.
pub open spec fn ranking_to(s: Seq<StoreEntry>, q: Seq<i64>, n: int) -> Seq<int>
    decreases n,
{
    if n <= 0 {
        Seq::empty()
    } else {
        insert_ranked(s, q, ranking_to(s, q, n - 1), n - 1)
    }
}

/// Ranked order of all entries of the store against query `q`.
pub open spec fn ranking(s: Seq<StoreEntry>, q: Seq<i64>) -> Seq<int> {
    ranking_to(s, q, s.len() as int)
}

/// Placing one index grows the ranked sequence by exactly one.
pub proof fn lemma_insert_ranked_len(s: Seq<StoreEntry>, q: Seq<i64>, ord: Seq<int>, i: int)
    ensures
        insert_ranked(s, q, ord, i).len() == ord.len() + 1,
    decreases ord.len(),
{
    if ord.len() != 0 && !entry_ranks_ahead(s, q, i, ord[0]) {
        lemma_insert_ranked_len(s, q, ord.drop_first(), i);
    }
}

/// The ranked order of `n` entries has length `n`.
pub proof fn lemma_ranking_to_len(s: Seq<StoreEntry>, q: Seq<i64>, n: int)
    requires
        n >= 0,
    ensures
        ranking_to(s, q, n).len() == n,
    decreases n,
{
    if n > 0 {
        lemma_ranking_to_len(s, q, n - 1);
        lemma_insert_ranked_len(s, q, ranking_to(s, q, n - 1), n - 1);
    }
}

proof fn lemma_insert_ranked_bounds(s: Seq<StoreEntry>, q: Seq<i64>, ord: Seq<int>, i: int, b: int)
    requires
        forall|j: int| 0 <= j < ord.len() ==> 0 <= #[trigger] ord[j] < b,
        0 <= i < b,
    ensures
        forall|j: int|
            0 <= j < insert_ranked(s, q, ord, i).len() ==> 0 <= #[trigger] insert_ranked(
                s,
                q,
                ord,
                i,
            )[j] < b,
    decreases ord.len(),
{
    if ord.len() == 0 {
        assert(insert_ranked(s, q, ord, i) == seq![i]);
    } else if entry_ranks_ahead(s, q, i, ord[0]) {
        assert(insert_ranked(s, q, ord, i) == seq![i] + ord);
        assert forall|j: int| 0 <= j < (seq![i] + ord).len() implies 0 <= #[trigger] (seq![i]
            + ord)[j] < b by {
            if j >= 1 {
                assert((seq![i] + ord)[j] == ord[j - 1]);
            }
        }
    } else {
        let rest = ord.drop_first();
        lemma_insert_ranked_bounds(s, q, rest, i, b);
        let tail = insert_ranked(s, q, rest, i);
        assert(insert_ranked(s, q, ord, i) == seq![ord[0]] + tail);
        assert forall|j: int| 0 <= j < (seq![ord[0]] + tail).len() implies 0 <= #[trigger] (seq![
            ord[0],
        ] + tail)[j] < b by {
            if j >= 1 {
                assert((seq![ord[0]] + tail)[j] == tail[j - 1]);
            }
        }
    }
}

/// Every position of the ranked order holds a valid entry index.
pub proof fn lemma_ranking_to_in_range(s: Seq<StoreEntry>, q: Seq<i64>, n: int)
    requires
        n >= 0,
    ensures
        forall|j: int|
            0 <= j < ranking_to(s, q, n).len() ==> 0 <= #[trigger] ranking_to(s, q, n)[j] < n,
    decreases n,
{
    if n > 0 {
        lemma_ranking_to_in_range(s, q, n - 1);
        assert forall|j: int|
            0 <= j < ranking_to(s, q, n - 1).len() implies 0 <= #[trigger] ranking_to(
            s,
            q,
            n - 1,
        )[j] < n by {}
        lemma_insert_ranked_bounds(s, q, ranking_to(s, q, n - 1), n - 1, n);
    }
}

/// Every position of the full ranking holds a valid entry index.
pub proof fn lemma_ranking_in_range(s: Seq<StoreEntry>, q: Seq<i64>)
    ensures
        forall|j: int|
            0 <= j < ranking(s, q).len() ==> 0 <= #[trigger] ranking(s, q)[j] < s.len(),
{
    lemma_ranking_to_in_range(s, q, s.len() as int);
}

/// Where `insert_ranked` places the new index: at the first position
/// `pos` whose occupant the new index outranks (or at the end), the
/// result is the old order with the new index inserted at `pos`.
proof fn lemma_insert_ranked_at(
    s: Seq<StoreEntry>,
    q: Seq<i64>,
    ord: Seq<int>,
    i: int,
    pos: int,
)
    requires
        0 <= pos <= ord.len(),
        forall|j: int| 0 <= j < pos ==> !entry_ranks_ahead(s, q, i, #[trigger] ord[j]),
        pos < ord.len() ==> entry_ranks_ahead(s, q, i, ord[pos]),
    ensures
        insert_ranked(s, q, ord, i) == ord.insert(pos, i),
    decreases ord.len(),
{
    if ord.len() == 0 {
        assert(insert_ranked(s, q, ord, i) =~= ord.insert(0, i));
    } else if entry_ranks_ahead(s, q, i, ord[0]) {
        assert(pos == 0);
        assert(insert_ranked(s, q, ord, i) =~= ord.insert(0, i));
    } else {
        assert(pos >= 1);
        let rest = ord.drop_first();
        assert(forall|j: int| 0 <= j < pos - 1 ==> !entry_ranks_ahead(s, q, i, #[trigger] rest[j]));
        lemma_insert_ranked_at(s, q, rest, i, pos - 1);
        assert(insert_ranked(s, q, ord, i) =~= ord.insert(pos, i));
    }
}

/// The ranking order on entries is transitive, for entries of positive
/// squared norm.
pub proof fn lemma_entry_ranks_ahead_transitive(
    s: Seq<StoreEntry>,
    q: Seq<i64>,
    i: int,
    j: int,
    k: int,
)
    requires
        entry_norm(s, i) > 0,
        entry_norm(s, j) > 0,
        entry_norm(s, k) > 0,
        entry_ranks_ahead(s, q, i, j),
        entry_ranks_ahead(s, q, j, k),
    ensures
        entry_ranks_ahead(s, q, i, k),
{
    crate::similarity::lemma_sim_order_transitive(
        entry_dot(s, q, k),
        entry_norm(s, k),
        entry_dot(s, q, j),
        entry_norm(s, j),
        entry_dot(s, q, i),
        entry_norm(s, i),
    );
    crate::similarity::lemma_sim_order_transitive(
        entry_dot(s, q, i),
        entry_norm(s, i),
        entry_dot(s, q, j),
        entry_norm(s, j),
        entry_dot(s, q, k),
        entry_norm(s, k),
    );
}

/// Every element of the placed order is the new index or one of the
/// old order's elements.
proof fn lemma_insert_ranked_elements(s: Seq<StoreEntry>, q: Seq<i64>, ord: Seq<int>, i: int)
    ensures
        forall|j: int|
            0 <= j < insert_ranked(s, q, ord, i).len() ==> #[trigger] insert_ranked(
                s,
                q,
                ord,
                i,
            )[j] == i || ord.contains(insert_ranked(s, q, ord, i)[j]),
    decreases ord.len(),
{
    let res = insert_ranked(s, q, ord, i);
    if ord.len() == 0 {
    } else if entry_ranks_ahead(s, q, i, ord[0]) {
        assert forall|j: int| 0 <= j < res.len() implies res[j] == i || ord.contains(res[j]) by {
            if j >= 1 {
                assert(res[j] == ord[j - 1]);
            }
        }
    } else {
        let rest = ord.drop_first();
        lemma_insert_ranked_elements(s, q, rest, i);
        let tail = insert_ranked(s, q, rest, i);
        assert forall|j: int| 0 <= j < res.len() implies res[j] == i || ord.contains(res[j]) by {
            if j == 0 {
                assert(res[0] == ord[0]);
            } else {
                assert(res[j] == tail[j - 1]);
                if tail[j - 1] != i {
                    let m = choose|m: int| 0 <= m < rest.len() && rest[m] == tail[j - 1];
                    assert(ord[m + 1] == tail[j - 1]);
                }
            }
        }
    }
}

/// The order holds no inversion: no later position outranks an earlier
/// one.
pub open spec fn ranked_descending(s: Seq<StoreEntry>, q: Seq<i64>, ord: Seq<int>) -> bool {
    forall|u: int, v: int|
        0 <= u < v < ord.len() ==> !entry_ranks_ahead(s, q, #[trigger] ord[v], #[trigger] ord[u])
}

proof fn lemma_insert_ranked_descending(s: Seq<StoreEntry>, q: Seq<i64>, ord: Seq<int>, i: int)
    requires
        ranked_descending(s, q, ord),
        forall|j: int| 0 <= j < ord.len() ==> 0 <= #[trigger] ord[j] < s.len(),
        0 <= i < s.len(),
        forall|m: int| 0 <= m < s.len() ==> #[trigger] entry_norm(s, m) > 0,
    ensures
        ranked_descending(s, q, insert_ranked(s, q, ord, i)),
    decreases ord.len(),
{
    let res = insert_ranked(s, q, ord, i);
    if ord.len() == 0 {
    } else if entry_ranks_ahead(s, q, i, ord[0]) {
        // `i` goes in front; nothing behind it may outrank it, else it
        // would outrank `ord[0]` by transitivity, against the sortedness
        // of `ord` (or against irreflexivity at position 0).
        assert forall|u: int, v: int| 0 <= u < v < res.len() implies !entry_ranks_ahead(
            s,
            q,
            res[v],
            res[u],
        ) by {
            assert(res[v] == ord[v - 1]);
            if u == 0 {
                if entry_ranks_ahead(s, q, ord[v - 1], i) {
                    lemma_entry_ranks_ahead_transitive(s, q, ord[v - 1], i, ord[0]);
                    if v - 1 == 0 {
                        assert(!entry_ranks_ahead(s, q, ord[0], ord[0]));
                    }
                }
            } else {
                assert(res[u] == ord[u - 1]);
            }
        }
    } else {
        let rest = ord.drop_first();
        let tail = insert_ranked(s, q, rest, i);
        lemma_insert_ranked_descending(s, q, rest, i);
        lemma_insert_ranked_elements(s, q, rest, i);
        assert forall|u: int, v: int| 0 <= u < v < res.len() implies !entry_ranks_ahead(
            s,
            q,
            res[v],
            res[u],
        ) by {
            assert(res[v] == tail[v - 1]);
            if u == 0 {
                // Everything behind `ord[0]` is `i` (which does not
                // outrank it, by the branch condition) or an element of
                // `rest` (which does not, by the sortedness of `ord`).
                if tail[v - 1] != i {
                    assert(rest.contains(tail[v - 1]));
                    let m = choose|m: int| 0 <= m < rest.len() && rest[m] == tail[v - 1];
                    assert(ord[m + 1] == tail[v - 1]);
                }
            } else {
                assert(res[u] == tail[u - 1]);
            }
        }
    }
}

/// The ranked order of the first `n` entries holds no inversion.
proof fn lemma_ranking_to_descending(s: Seq<StoreEntry>, q: Seq<i64>, n: int)
    requires
        0 <= n <= s.len(),
        forall|m: int| 0 <= m < s.len() ==> #[trigger] entry_norm(s, m) > 0,
    ensures
        ranked_descending(s, q, ranking_to(s, q, n)),
    decreases n,
{
    if n > 0 {
        lemma_ranking_to_descending(s, q, n - 1);
        lemma_ranking_to_in_range(s, q, n - 1);
        lemma_insert_ranked_descending(s, q, ranking_to(s, q, n - 1), n - 1);
    }
}

/// Query results come in descending similarity order: when every stored
/// embedding has positive squared norm (as on every store a successful
/// query scans), the ranking holds no inversion — no later position
/// outranks an earlier one in the order of [`entry_ranks_ahead`].
pub proof fn lemma_ranking_descending(s: Seq<StoreEntry>, q: Seq<i64>)
    requires
        forall|m: int| 0 <= m < s.len() ==> #[trigger] entry_norm(s, m) > 0,
    ensures
        ranked_descending(s, q, ranking(s, q)),
{
    lemma_ranking_to_descending(s, q, s.len() as int);
}

/// The ranking order is total on distinct entries of positive squared
/// norm: one of the two outranks the other.
pub proof fn lemma_entry_ranks_ahead_total(s: Seq<StoreEntry>, q: Seq<i64>, i: int, j: int)
    requires
        entry_norm(s, i) > 0,
        entry_norm(s, j) > 0,
        i != j,
    ensures
        entry_ranks_ahead(s, q, i, j) || entry_ranks_ahead(s, q, j, i),
{
}

/// All positions of the order hold pairwise different indices.
pub open spec fn distinct_indices(ord: Seq<int>) -> bool {
    forall|u: int, v: int| 0 <= u < v < ord.len() ==> #[trigger] ord[u] != #[trigger] ord[v]
}

proof fn lemma_insert_ranked_distinct(s: Seq<StoreEntry>, q: Seq<i64>, ord: Seq<int>, i: int)
    requires
        distinct_indices(ord),
        forall|j: int| 0 <= j < ord.len() ==> #[trigger] ord[j] != i,
    ensures
        distinct_indices(insert_ranked(s, q, ord, i)),
    decreases ord.len(),
{
    let res = insert_ranked(s, q, ord, i);
    if ord.len() == 0 {
    } else if entry_ranks_ahead(s, q, i, ord[0]) {
        assert forall|u: int, v: int| 0 <= u < v < res.len() implies res[u] != res[v] by {
            assert(res[v] == ord[v - 1]);
            if u >= 1 {
                assert(res[u] == ord[u - 1]);
            }
        }
    } else {
        let rest = ord.drop_first();
        lemma_insert_ranked_distinct(s, q, rest, i);
        lemma_insert_ranked_elements(s, q, rest, i);
        let tail = insert_ranked(s, q, rest, i);
        assert forall|u: int, v: int| 0 <= u < v < res.len() implies res[u] != res[v] by {
            assert(res[v] == tail[v - 1]);
            if u == 0 {
                if tail[v - 1] != i {
                    assert(rest.contains(tail[v - 1]));
                    let m = choose|m: int| 0 <= m < rest.len() && rest[m] == tail[v - 1];
                    assert(ord[m + 1] == tail[v - 1]);
                }
            } else {
                assert(res[u] == tail[u - 1]);
            }
        }
    }
}

/// The ranked order never repeats an entry index.
pub proof fn lemma_ranking_to_distinct(s: Seq<StoreEntry>, q: Seq<i64>, n: int)
    requires
        0 <= n,
    ensures
        distinct_indices(ranking_to(s, q, n)),
    decreases n,
{
    if n > 0 {
        lemma_ranking_to_distinct(s, q, n - 1);
        lemma_ranking_to_in_range(s, q, n - 1);
        lemma_insert_ranked_distinct(s, q, ranking_to(s, q, n - 1), n - 1);
    }
}

/// Query results come in strictly descending rank: when every stored
/// embedding has positive squared norm (as on every store a successful
/// query scans), each earlier position of the ranking outranks each
/// later one — strictly higher cosine similarity, or equal similarity
/// and earlier insertion.
pub proof fn lemma_ranking_strictly_descending(s: Seq<StoreEntry>, q: Seq<i64>)
    requires
        forall|m: int| 0 <= m < s.len() ==> #[trigger] entry_norm(s, m) > 0,
    ensures
        forall|u: int, v: int|
            0 <= u < v < ranking(s, q).len() ==> entry_ranks_ahead(
                s,
                q,
                #[trigger] ranking(s, q)[u],
                #[trigger] ranking(s, q)[v],
            ),
{
    let ord = ranking(s, q);
    lemma_ranking_descending(s, q);
    lemma_ranking_to_distinct(s, q, s.len() as int);
    lemma_ranking_in_range(s, q);
    assert forall|u: int, v: int| 0 <= u < v < ord.len() implies entry_ranks_ahead(
        s,
        q,
        #[trigger] ord[u],
        #[trigger] ord[v],
    ) by {
        lemma_entry_ranks_ahead_total(s, q, ord[u], ord[v]);
    }
}

/// The full ranking is a permutation of the entry indices: it has one
/// position for every stored entry, and every stored entry appears.
pub proof fn lemma_ranking_complete(s: Seq<StoreEntry>, q: Seq<i64>)
    ensures
        ranking(s, q).len() == s.len(),
        forall|m: int| 0 <= m < s.len() ==> ranking(s, q).contains(m),
{
    broadcast use vstd::set_lib::group_set_lib_default;

    let ord = ranking(s, q);
    let n = s.len() as int;
    lemma_ranking_to_len(s, q, n);
    lemma_ranking_to_distinct(s, q, n);
    lemma_ranking_in_range(s, q);
    assert(ord.no_duplicates());
    ord.unique_seq_to_set();
    let range = vstd::set_lib::set_int_range(0, n);
    vstd::set_lib::lemma_int_range(0, n);
    assert(ord.to_set().subset_of(range)) by {
        assert forall|x: int| ord.to_set().contains(x) implies range.contains(x) by {
            let j = choose|j: int| 0 <= j < ord.len() && ord[j] == x;
        }
    }
    vstd::set_lib::lemma_subset_equality(ord.to_set(), range);
    assert forall|m: int| 0 <= m < s.len() implies ord.contains(m) by {
        assert(range.contains(m));
        assert(ord.to_set().contains(m));
    }
}

/// Scores kept while sorting: dot product, squared norm, entry index.
/// The numeric parts stay within the bounds of well-formed embeddings
/// and the norm is positive (degenerate entries abort the query).
pub(crate) open spec fn score_wf(t: (i64, i64, usize)) -> bool {
    &&& -SCORE_BOUND <= t.0 <= SCORE_BOUND
    &&& 0 < t.1 <= SCORE_BOUND
}

/// The in-process ranking order on score triples.
pub(crate) open spec fn score_ranks_ahead(x: (i64, i64, usize), y: (i64, i64, usize)) -> bool {
    ranks_ahead(x.0 as int, x.1 as int, x.2 as int, y.0 as int, y.1 as int, y.2 as int)
}

/// Places one score triple into the sorted score vector, in front of
/// the first triple it outranks, and reports the chosen position.
fn insert_scored(scored: &mut Vec<(i64, i64, usize)>, d: i64, nn: i64, idx: usize) -> (pos: usize)
    requires
        forall|j: int| 0 <= j < old(scored)@.len() ==> score_wf(#[trigger] old(scored)@[j]),
        score_wf((d, nn, idx)),
    ensures
        0 <= pos <= old(scored)@.len(),
        forall|j: int|
            0 <= j < pos ==> !score_ranks_ahead((d, nn, idx), #[trigger] old(scored)@[j]),
        pos < old(scored)@.len() ==> score_ranks_ahead((d, nn, idx), old(scored)@[pos as int]),
        final(scored)@ == old(scored)@.insert(pos as int, (d, nn, idx)),
{
    let n = scored.len();
    let mut pos: usize = 0;
    while pos < n && !crate::similarity::ranks_before(
        d,
        nn,
        idx,
        scored[pos].0,
        scored[pos].1,
        scored[pos].2,
    )
        invariant
            pos <= n,
            n == scored@.len(),
            *scored == *old(scored),
            forall|j: int| 0 <= j < scored@.len() ==> score_wf(#[trigger] scored@[j]),
            score_wf((d, nn, idx)),
            forall|j: int|
                0 <= j < pos ==> !score_ranks_ahead((d, nn, idx), #[trigger] scored@[j]),
        decreases n - pos,
    {
        pos += 1;
    }
    scored.insert(pos, (d, nn, idx));
    pos
}

/// The in-memory vector store: a sequence of entries keyed by unique
/// identifiers, all embeddings of one dimensionality. Its view is the
/// sequence of entries in insertion order.
pub struct VectorDB {
    entries: Vec<StoreEntry>,
}

impl View for VectorDB {
    type V = Seq<StoreEntry>;

    closed spec fn view(&self) -> Seq<StoreEntry> {
        self.entries@
    }
}

impl VectorDB {
    #[verifier::type_invariant]
    spec fn inv(self) -> bool {
        entries_wf(self.entries@)
    }

    /// An empty store; dimensionality is established by the first
    /// successful insertion.
    pub fn new() -> (db: VectorDB)
        ensures
            db@ == Seq::<StoreEntry>::empty(),
    {
        VectorDB { entries: Vec::new() }
    }

    /// Number of stored entries.
    pub fn len(&self) -> (n: usize)
        ensures
            n == self@.len(),
    {
        self.entries.len()
    }

    /// Inserts or replaces the entry for `id`.
    ///
    /// If the store is non-empty and the embedding's dimensionality
    /// differs from the established one, fails with `DimensionMismatch`
    /// and leaves the store unchanged. Otherwise succeeds: an existing
    /// entry with the same identifier is replaced whole, in place, so
    /// the store's size and insertion order are unchanged; a new
    /// identifier is appended. Idempotent under retry with identical
    /// arguments.
    pub fn add_document(&mut self, id: String, embedding: Embedding, document: Document) -> (r:
        Result<(), RagError>)
        ensures
            old(self)@.len() > 0 && embedding@.len() != old(self)@[0].embedding@.len() ==> r
                == Err::<(), RagError>(RagError::DimensionMismatch) && final(self)@ == old(self)@,
            (old(self)@.len() == 0 || embedding@.len() == old(self)@[0].embedding@.len()) ==> r
                == Ok::<(), RagError>(()) && final(self)@ == (if has_id(old(self)@, id@) {
                old(self)@.update(index_of_id(old(self)@, id@), (StoreEntry { id, embedding, document }))
            } else {
                old(self)@.push((StoreEntry { id, embedding, document }))
            }),
            has_id(old(self)@, id@) && r is Ok ==> final(self)@.len() == old(self)@.len(),
    {
        proof {
            use_type_invariant(&*self);
        }
        if self.entries.len() > 0 {
            if embedding.dim() != self.entries[0].embedding.dim() {
                return Err(RagError::DimensionMismatch);
            }
        }
        let mut entries: Vec<StoreEntry> = Vec::new();
        std::mem::swap(&mut entries, &mut self.entries);
        let n = entries.len();
        let mut i: usize = 0;
        while i < n && !(entries[i].id == id)
            invariant
                i <= n,
                n == entries@.len(),
                forall|jj: int| 0 <= jj < i ==> #[trigger] entries@[jj].id@ != id@,
            decreases n - i,
        {
            i += 1;
        }
        if i < n {
            proof {
                lemma_index_of_id_found(entries@, id@, i as int);
            }
            entries[i] = StoreEntry { id, embedding, document };
        } else {
            proof {
                lemma_index_of_id_none(entries@, id@);
            }
            entries.push(StoreEntry { id, embedding, document });
        }
        self.entries = entries;
        Ok(())
    }

    /// Similarity-ranked top-k query.
    ///
    /// On an empty store returns the empty sequence, never an error.
    /// Otherwise fails with `DimensionMismatch` exactly when the query
    /// embedding's length differs from the store's dimensionality, and
    /// with `DegenerateVector` exactly when the query or some stored
    /// embedding has zero norm. On success it returns the documents of
    /// the `min(k, size)` best entries, in the deterministic order
    /// given by [`ranking`]: descending cosine similarity, ties broken
    /// by insertion order.
    pub fn query(&self, query_embedding: &Embedding, top_k: usize) -> (r: Result<
        Vec<Document>,
        RagError,
    >)
        ensures
            self@.len() == 0 ==> (r matches Ok(docs) && docs@.len() == 0),
            self@.len() > 0 && query_embedding@.len() != self@[0].embedding@.len() ==> r == Err::<
                Vec<Document>,
                RagError,
            >(RagError::DimensionMismatch),
            self@.len() > 0 && query_embedding@.len() == self@[0].embedding@.len() && (norm_sq(
                query_embedding@,
            ) == 0 || exists|m: int|
                0 <= m < self@.len() && #[trigger] entry_norm(self@, m) == 0) ==> r == Err::<
                Vec<Document>,
                RagError,
            >(RagError::DegenerateVector),
            r is Ok && self@.len() > 0 ==> query_embedding@.len() == self@[0].embedding@.len()
                && norm_sq(query_embedding@) != 0 && forall|m: int|
                0 <= m < self@.len() ==> #[trigger] entry_norm(self@, m) != 0,
            self@.len() > 0 && query_embedding@.len() == self@[0].embedding@.len() && norm_sq(
                query_embedding@,
            ) != 0 && (forall|m: int|
                0 <= m < self@.len() ==> #[trigger] entry_norm(self@, m) != 0) ==> r is Ok,
            r matches Ok(docs) ==> docs@.len() == (if (top_k as int) < self@.len() {
                top_k as int
            } else {
                self@.len() as int
            }),
            r matches Ok(docs) ==> forall|j: int|
                0 <= j < docs@.len() ==> #[trigger] docs@[j] == self@[ranking(
                    self@,
                    query_embedding@,
                )[j]].document,
    {
        proof {
            use_type_invariant(&*self);
        }
        let n = self.entries.len();
        if n == 0 {
            let empty: Vec<Document> = Vec::new();
            return Ok(empty);
        }
        if query_embedding.dim() != self.entries[0].embedding.dim() {
            return Err(RagError::DimensionMismatch);
        }
        let nq = query_embedding.norm_squared();
        if nq == 0 {
            return Err(RagError::DegenerateVector);
        }
        let mut scored: Vec<(i64, i64, usize)> = Vec::new();
        let mut i: usize = 0;
        while i < n
            invariant
                i <= n,
                n == self@.len(),
                entries_wf(self@),
                query_embedding@.len() == self@[0].embedding@.len(),
                query_embedding@.len() <= crate::embedding::MAX_DIM,
                norm_sq(query_embedding@) != 0,
                scored@.len() == i,
                ranking_to(self@, query_embedding@, i as int).len() == i,
                forall|j: int| 0 <= j < scored@.len() ==> score_wf(#[trigger] scored@[j]),
                forall|j: int|
                    0 <= j < scored@.len() ==> (#[trigger] scored@[j].2 as int) < n as int,
                forall|j: int|
                    0 <= j < scored@.len() ==> #[trigger] scored@[j].2 as int == ranking_to(
                        self@,
                        query_embedding@,
                        i as int,
                    )[j],
                forall|j: int|
                    0 <= j < scored@.len() ==> #[trigger] scored@[j].0 as int == entry_dot(
                        self@,
                        query_embedding@,
                        scored@[j].2 as int,
                    ) && scored@[j].1 as int == entry_norm(self@, scored@[j].2 as int),
                forall|m: int| 0 <= m < i ==> #[trigger] entry_norm(self@, m) != 0,
            decreases n - i,
        {
            let d = query_embedding.dot_with(&self.entries[i].embedding);
            let nn = self.entries[i].embedding.norm_squared();
            if nn == 0 {
                proof {
                    assert(entry_norm(self@, i as int) == 0);
                }
                return Err(RagError::DegenerateVector);
            }
            proof {
                assert(SCORE_BOUND == 4096 * 32768 * 32768);
                assert(self@[i as int].embedding@.len() == query_embedding@.len());
            }
            let ghost ord_before = ranking_to(self@, query_embedding@, i as int);
            let ghost scored_before = scored@;
            let pos = insert_scored(&mut scored, d, nn, i);
            proof {
                assert forall|j: int| 0 <= j < pos implies !entry_ranks_ahead(
                    self@,
                    query_embedding@,
                    i as int,
                    #[trigger] ord_before[j],
                ) by {
                    assert(!score_ranks_ahead((d, nn, i), scored_before[j]));
                    assert(scored_before[j].2 as int == ord_before[j]);
                }
                if (pos as int) < ord_before.len() {
                    assert(score_ranks_ahead((d, nn, i), scored_before[pos as int]));
                    assert(entry_ranks_ahead(self@, query_embedding@, i as int, ord_before[pos as int]));
                }
                lemma_insert_ranked_at(self@, query_embedding@, ord_before, i as int, pos as int);
                lemma_insert_ranked_len(self@, query_embedding@, ord_before, i as int);
                ord_before.insert_ensures(pos as int, i as int);
                scored_before.insert_ensures(pos as int, (d, nn, i));
                assert(ranking_to(self@, query_embedding@, i + 1) == ord_before.insert(
                    pos as int,
                    i as int,
                ));
            }
            i += 1;
        }
        let m = if top_k < n {
            top_k
        } else {
            n
        };
        let ghost ord = ranking(self@, query_embedding@);
        proof {
            assert(ord == ranking_to(self@, query_embedding@, n as int));
        }
        let mut out: Vec<Document> = Vec::new();
        let mut j: usize = 0;
        while j < m
            invariant
                j <= m,
                m <= n,
                n == self@.len(),
                scored@.len() == n,
                ord == ranking(self@, query_embedding@),
                forall|jj: int|
                    0 <= jj < scored@.len() ==> (#[trigger] scored@[jj].2 as int) < n as int,
                forall|jj: int|
                    0 <= jj < scored@.len() ==> #[trigger] scored@[jj].2 as int == ord[jj],
                out@.len() == j,
                forall|jj: int|
                    0 <= jj < j ==> #[trigger] out@[jj] == self@[ord[jj]].document,
            decreases m - j,
        {
            let idx = scored[j].2;
            let doc = &self.entries[idx].document;
            out.push(Document { id: doc.id.clone(), content: doc.content.clone() });
            j += 1;
        }
        Ok(out)
    }
}

/// The query result is a function of the store contents, the query
/// embedding and `k` alone: any two results that satisfy the query
/// contract for identical inputs are equal, element by element.
pub proof fn lemma_query_deterministic(
    s: Seq<StoreEntry>,
    q: Seq<i64>,
    k: int,
    r1: Seq<Document>,
    r2: Seq<Document>,
)
    requires
        r1.len() == if k < s.len() {
            k
        } else {
            s.len() as int
        },
        r2.len() == r1.len(),
        forall|j: int| 0 <= j < r1.len() ==> #[trigger] r1[j] == s[ranking(s, q)[j]].document,
        forall|j: int| 0 <= j < r2.len() ==> #[trigger] r2[j] == s[ranking(s, q)[j]].document,
    ensures
        r1 == r2,
{
    assert(r1 =~= r2);
}

} // verus!
