//! Ordering of entries: the case-insensitive lexicographic name comparison,
//! the directory-first default ordering, and the sort-chain engine that
//! applies user-chosen criteria as successive stable sorting passes.

use vstd::prelude::*;

use crate::entry::FileInfo;

verus! {

/// The character sequence that `str::to_lowercase` produces for `s`: a
/// function of the characters alone.
pub uninterp spec fn lower_of(s: Seq<char>) -> Seq<char>;

/// Relies on `str::to_lowercase`: the returned string is the input with
/// every character lowercased, a function of the input characters alone.
#[verifier::external_body]
fn lowercase(s: &str) -> (r: String)
    ensures
        r@ == lower_of(s@),
{
    s.to_lowercase()
}

/// Lexicographic less-or-equal on character sequences, characters compared
/// by codepoint.
pub open spec fn lex_le(a: Seq<char>, b: Seq<char>) -> bool
    decreases a.len(),
{
    if a.len() == 0 {
        true
    } else if b.len() == 0 {
        false
    } else if (a[0] as u32) < (b[0] as u32) {
        true
    } else if (a[0] as u32) > (b[0] as u32) {
        false
    } else {
        lex_le(a.drop_first(), b.drop_first())
    }
}

/// Any two character sequences compare in at least one direction.
pub proof fn lemma_lex_le_total(a: Seq<char>, b: Seq<char>)
    ensures
        lex_le(a, b) || lex_le(b, a),
    decreases a.len(),
{
    if a.len() > 0 && b.len() > 0 && a[0] as u32 == b[0] as u32 {
        lemma_lex_le_total(a.drop_first(), b.drop_first());
    }
}

/// Lexicographic less-or-equal is transitive.
pub proof fn lemma_lex_le_trans(a: Seq<char>, b: Seq<char>, c: Seq<char>)
    requires
        lex_le(a, b),
        lex_le(b, c),
    ensures
        lex_le(a, c),
    decreases a.len(),
{
    if a.len() > 0 && b.len() > 0 && c.len() > 0 && a[0] as u32 == b[0] as u32 && b[0] as u32
        == c[0] as u32 {
        lemma_lex_le_trans(a.drop_first(), b.drop_first(), c.drop_first());
    }
}

/// If the first `i` characters agree, comparison is decided by the rest.
proof fn lemma_lex_le_skip(a: Seq<char>, b: Seq<char>, i: int)
    requires
        0 <= i <= a.len(),
        i <= b.len(),
        forall|j: int| 0 <= j < i ==> (a[j] as u32) == (b[j] as u32),
    ensures
        lex_le(a, b) == lex_le(a.skip(i), b.skip(i)),
    decreases i,
{
    if i > 0 {
        lemma_lex_le_skip(a.drop_first(), b.drop_first(), i - 1);
        assert(a.drop_first().skip(i - 1) =~= a.skip(i));
        assert(b.drop_first().skip(i - 1) =~= b.skip(i));
    } else {
        assert(a.skip(0) =~= a);
        assert(b.skip(0) =~= b);
    }
}

/// Compare two strings lexicographically by codepoint.
fn lex_le_exec(a: &str, b: &str) -> (r: bool)
    ensures
        r == lex_le(a@, b@),
{
    let na = a.unicode_len();
    let nb = b.unicode_len();
    let mut i: usize = 0;
    loop
        invariant
            i <= na,
            i <= nb,
            na == a@.len(),
            nb == b@.len(),
            forall|j: int| 0 <= j < i ==> (a@[j] as u32) == (b@[j] as u32),
        decreases na - i,
    {
        if i == na {
            proof {
                lemma_lex_le_skip(a@, b@, i as int);
                assert(a@.skip(i as int).len() == 0);
            }
            return true;
        }
        if i == nb {
            proof {
                lemma_lex_le_skip(a@, b@, i as int);
                assert(b@.skip(i as int).len() == 0);
                assert(a@.skip(i as int).len() > 0);
            }
            return false;
        }
        let ca = a.get_char(i) as u32;
        let cb = b.get_char(i) as u32;
        if ca != cb {
            proof {
                lemma_lex_le_skip(a@, b@, i as int);
                assert(a@.skip(i as int)[0] == a@[i as int]);
                assert(b@.skip(i as int)[0] == b@[i as int]);
            }
            return ca < cb;
        }
        i = i + 1;
    }
}

/// A comparator over entries: one per sort key, and the fixed
/// directory-first, case-insensitive-name default ordering.
#[derive(Clone, Copy)]
pub enum EntryOrder {
    ByKind,
    ByName,
    BySize,
    ByCreated,
    ByModified,
    DirFirstName,
}

/// Less-or-equal under a comparator. `ByKind` orders by the bare
/// `is_directory` flag (`false` before `true`); `DirFirstName` puts
/// directories strictly first and falls back to the lowercased name.
pub open spec fn order_le(o: EntryOrder, a: FileInfo, b: FileInfo) -> bool {
    match o {
        EntryOrder::ByKind => (a.kind is Directory) ==> (b.kind is Directory),
        EntryOrder::ByName => lex_le(lower_of(a.name@), lower_of(b.name@)),
        EntryOrder::BySize => a.size <= b.size,
        EntryOrder::ByCreated => a.created <= b.created,
        EntryOrder::ByModified => a.modified <= b.modified,
        EntryOrder::DirFirstName => if (a.kind is Directory) != (b.kind is Directory) {
            a.kind is Directory
        } else {
            lex_le(lower_of(a.name@), lower_of(b.name@))
        },
    }
}

/// Every comparator is total.
pub proof fn lemma_order_le_total(o: EntryOrder, a: FileInfo, b: FileInfo)
    ensures
        order_le(o, a, b) || order_le(o, b, a),
{
    lemma_lex_le_total(lower_of(a.name@), lower_of(b.name@));
}

/// Every comparator is transitive.
pub proof fn lemma_order_le_trans(o: EntryOrder, a: FileInfo, b: FileInfo, c: FileInfo)
    requires
        order_le(o, a, b),
        order_le(o, b, c),
    ensures
        order_le(o, a, c),
{
    if lex_le(lower_of(a.name@), lower_of(b.name@)) && lex_le(
        lower_of(b.name@),
        lower_of(c.name@),
    ) {
        lemma_lex_le_trans(lower_of(a.name@), lower_of(b.name@), lower_of(c.name@));
    }
}

/// Decide `order_le` on two entries.
fn order_le_exec(o: EntryOrder, a: &FileInfo, b: &FileInfo) -> (r: bool)
    ensures
        r == order_le(o, *a, *b),
{
    match o {
        EntryOrder::ByKind => !a.is_dir() || b.is_dir(),
        EntryOrder::ByName => {
            let la = lowercase(a.name.as_str());
            let lb = lowercase(b.name.as_str());
            lex_le_exec(la.as_str(), lb.as_str())
        },
        EntryOrder::BySize => a.size <= b.size,
        EntryOrder::ByCreated => a.created <= b.created,
        EntryOrder::ByModified => a.modified <= b.modified,
        EntryOrder::DirFirstName => {
            let da = a.is_dir();
            let db = b.is_dir();
            if da != db {
                da
            } else {
                let la = lowercase(a.name.as_str());
                let lb = lowercase(b.name.as_str());
                lex_le_exec(la.as_str(), lb.as_str())
            }
        },
    }
}

/// Stable insertion of `x` into `s`: `x` lands at the first position whose
/// element does not compare less-or-equal to `x`, so it stays behind every
/// earlier element that ties with it.
pub open spec fn insert_ordered(o: EntryOrder, s: Seq<FileInfo>, x: FileInfo) -> Seq<FileInfo>
    decreases s.len(),
{
    if s.len() == 0 {
        seq![x]
    } else if order_le(o, s[0], x) {
        seq![s[0]] + insert_ordered(o, s.drop_first(), x)
    } else {
        seq![x] + s
    }
}

/// The stable sort of `s` under comparator `o`: each element is inserted,
/// in input order, behind the already-placed elements it ties with.
pub open spec fn stable_sorted(o: EntryOrder, s: Seq<FileInfo>) -> Seq<FileInfo>
    decreases s.len(),
{
    if s.len() == 0 {
        Seq::empty()
    } else {
        insert_ordered(o, stable_sorted(o, s.drop_last()), s.last())
    }
}

/// A sequence is ordered under comparator `o`.
pub open spec fn ordered_by(o: EntryOrder, s: Seq<FileInfo>) -> bool {
    forall|i: int, j: int| 0 <= i < j < s.len() ==> order_le(o, s[i], s[j])
}

/// Inserting at a boundary position `j` (everything before `j` compares
/// less-or-equal to `x`, the element at `j`, if any, does not) is what
/// `insert_ordered` does.
proof fn lemma_insert_ordered_split(o: EntryOrder, s: Seq<FileInfo>, x: FileInfo, j: int)
    requires
        0 <= j <= s.len(),
        forall|k: int| 0 <= k < j ==> order_le(o, s[k], x),
        j == s.len() || !order_le(o, s[j], x),
    ensures
        insert_ordered(o, s, x) == s.take(j) + seq![x] + s.skip(j),
    decreases j,
{
    if j == 0 {
        if s.len() == 0 {
            assert(insert_ordered(o, s, x) =~= s.take(0) + seq![x] + s.skip(0));
        } else {
            assert(seq![x] + s =~= s.take(0) + seq![x] + s.skip(0));
        }
    } else {
        lemma_insert_ordered_split(o, s.drop_first(), x, j - 1);
        assert(s.drop_first().take(j - 1) =~= s.take(j).drop_first());
        assert(s.drop_first().skip(j - 1) =~= s.skip(j));
        assert(seq![s[0]] + (s.drop_first().take(j - 1) + seq![x] + s.drop_first().skip(j - 1))
            =~= s.take(j) + seq![x] + s.skip(j));
    }
}

/// An element below `x` and below everything in `s` is below everything in
/// the insertion of `x` into `s`.
proof fn lemma_insert_ordered_lb(o: EntryOrder, s: Seq<FileInfo>, x: FileInfo, y: FileInfo)
    requires
        order_le(o, y, x),
        forall|k: int| 0 <= k < s.len() ==> order_le(o, y, s[k]),
    ensures
        forall|k: int|
            0 <= k < insert_ordered(o, s, x).len() ==> order_le(o, y, insert_ordered(o, s, x)[k]),
    decreases s.len(),
{
    if s.len() > 0 && order_le(o, s[0], x) {
        let s1 = s.drop_first();
        assert(forall|k: int| 0 <= k < s1.len() ==> s1[k] == s[k + 1]);
        lemma_insert_ordered_lb(o, s1, x, y);
        let r = insert_ordered(o, s, x);
        assert(r == seq![s[0]] + insert_ordered(o, s1, x));
        assert forall|k: int| 0 <= k < r.len() implies order_le(o, y, r[k]) by {
            if k > 0 {
                assert(r[k] == insert_ordered(o, s1, x)[k - 1]);
            }
        }
    }
}

/// Inserting into an ordered sequence keeps it ordered.
proof fn lemma_insert_ordered_sorted(o: EntryOrder, s: Seq<FileInfo>, x: FileInfo)
    requires
        ordered_by(o, s),
    ensures
        ordered_by(o, insert_ordered(o, s, x)),
    decreases s.len(),
{
    if s.len() == 0 {
    } else if order_le(o, s[0], x) {
        let s1 = s.drop_first();
        assert(ordered_by(o, s1));
        lemma_insert_ordered_sorted(o, s1, x);
        assert(forall|k: int| 0 <= k < s1.len() ==> order_le(o, s[0], s1[k]));
        lemma_insert_ordered_lb(o, s1, x, s[0]);
        let r = insert_ordered(o, s, x);
        assert(r == seq![s[0]] + insert_ordered(o, s1, x));
        assert forall|i: int, j: int| 0 <= i < j < r.len() implies order_le(o, r[i], r[j]) by {
            if i == 0 {
                assert(r[j] == insert_ordered(o, s1, x)[j - 1]);
            } else {
                assert(r[i] == insert_ordered(o, s1, x)[i - 1]);
                assert(r[j] == insert_ordered(o, s1, x)[j - 1]);
            }
        }
    } else {
        lemma_order_le_total(o, s[0], x);
        let r = seq![x] + s;
        assert forall|i: int, j: int| 0 <= i < j < r.len() implies order_le(o, r[i], r[j]) by {
            if i == 0 && j > 1 {
                lemma_order_le_trans(o, x, s[0], s[j - 1]);
            }
        }
    }
}

/// Insertion adds exactly `x` to the contents.
proof fn lemma_insert_ordered_multiset(o: EntryOrder, s: Seq<FileInfo>, x: FileInfo)
    ensures
        insert_ordered(o, s, x).to_multiset() == s.to_multiset().insert(x),
    decreases s.len(),
{
    broadcast use vstd::seq_lib::group_to_multiset_ensures;

    if s.len() == 0 {
        assert(seq![x] =~= Seq::empty().push(x));
        assert(insert_ordered(o, s, x).to_multiset() =~= s.to_multiset().insert(x));
    } else if order_le(o, s[0], x) {
        let s1 = s.drop_first();
        lemma_insert_ordered_multiset(o, s1, x);
        vstd::seq_lib::lemma_multiset_commutative(seq![s[0]], insert_ordered(o, s1, x));
        vstd::seq_lib::lemma_multiset_commutative(seq![s[0]], s1);
        assert(seq![s[0]] + s1 =~= s);
        assert(insert_ordered(o, s, x).to_multiset() =~= s.to_multiset().insert(x));
    } else {
        vstd::seq_lib::lemma_multiset_commutative(seq![x], s);
        assert(seq![x] =~= Seq::empty().push(x));
        assert(insert_ordered(o, s, x).to_multiset() =~= s.to_multiset().insert(x));
    }
}

/// The stable sort orders its input.
pub proof fn lemma_stable_sorted_sorted(o: EntryOrder, s: Seq<FileInfo>)
    ensures
        ordered_by(o, stable_sorted(o, s)),
    decreases s.len(),
{
    if s.len() > 0 {
        lemma_stable_sorted_sorted(o, s.drop_last());
        lemma_insert_ordered_sorted(o, stable_sorted(o, s.drop_last()), s.last());
    }
}

/// The stable sort is a pure reordering: it keeps exactly the input
/// entries, with their multiplicities.
pub proof fn lemma_stable_sorted_multiset(o: EntryOrder, s: Seq<FileInfo>)
    ensures
        stable_sorted(o, s).to_multiset() == s.to_multiset(),
    decreases s.len(),
{
    broadcast use vstd::seq_lib::group_to_multiset_ensures;

    if s.len() > 0 {
        lemma_stable_sorted_multiset(o, s.drop_last());
        lemma_insert_ordered_multiset(o, stable_sorted(o, s.drop_last()), s.last());
        assert(s =~= s.drop_last().push(s.last()));
        assert(stable_sorted(o, s).to_multiset() =~= s.to_multiset());
    }
}

/// Stable-sort `entries` under comparator `o`.
fn sort_by_order(o: EntryOrder, entries: Vec<FileInfo>) -> (r: Vec<FileInfo>)
    ensures
        r@ == stable_sorted(o, entries@),
{
    let ghost s = entries@;
    let mut rest = entries;
    let mut out: Vec<FileInfo> = Vec::new();
    while rest.len() > 0
        invariant
            rest@.len() <= s.len(),
            rest@ == s.skip(s.len() - rest@.len()),
            out@ == stable_sorted(o, s.take(s.len() - rest@.len())),
        decreases rest@.len(),
    {
        let ghost done = s.len() - rest@.len();
        let x = rest.remove(0);
        proof {
            assert(rest@ =~= s.skip(done + 1));
            assert(x == s[done]);
        }
        let ghost prev = out@;
        let mut j: usize = 0;
        while j < out.len() && order_le_exec(o, &out[j], &x)
            invariant
                j <= out.len(),
                out@ == prev,
                forall|k: int| 0 <= k < j ==> order_le(o, out@[k], x),
            decreases out@.len() - j,
        {
            j = j + 1;
        }
        out.insert(j, x);
        proof {
            lemma_insert_ordered_split(o, prev, x, j as int);
            assert(out@ =~= prev.take(j as int) + seq![x] + prev.skip(j as int));
            assert(s.take(done + 1).drop_last() =~= s.take(done));
            assert(s.take(done + 1).last() == s[done]);
        }
    }
    proof {
        assert(s.take(s.len() as int) =~= s);
    }
    out
}

/// One criterion of a sort chain: five stable sort keys and the chain-wide
/// `Reverse` instruction, which reverses the sequence produced so far.
#[derive(Clone, Copy, PartialEq, Eq, Structural, Debug)]
pub enum SortOption {
    IsDirectory,
    Name,
    Size,
    Creation,
    Modification,
    Reverse,
}

/// The comparator that a (non-`Reverse`) criterion sorts by.
pub open spec fn criterion_order(c: SortOption) -> EntryOrder {
    match c {
        SortOption::IsDirectory => EntryOrder::ByKind,
        SortOption::Name => EntryOrder::ByName,
        SortOption::Size => EntryOrder::BySize,
        SortOption::Creation => EntryOrder::ByCreated,
        SortOption::Modification => EntryOrder::ByModified,
        SortOption::Reverse => EntryOrder::ByKind,
    }
}

/// What one pass of the chain does to the working sequence: `Reverse`
/// reverses it, every other criterion stable-sorts it by its key.
pub open spec fn sort_pass(c: SortOption, s: Seq<FileInfo>) -> Seq<FileInfo> {
    match c {
        SortOption::Reverse => s.reverse(),
        _ => stable_sorted(criterion_order(c), s),
    }
}

/// Reverse the order of a vector of entries.
fn reverse_entries(entries: Vec<FileInfo>) -> (r: Vec<FileInfo>)
    ensures
        r@ == entries@.reverse(),
{
    let ghost s = entries@;
    let mut rest = entries;
    let mut out: Vec<FileInfo> = Vec::new();
    while rest.len() > 0
        invariant
            rest@.len() <= s.len(),
            rest@ == s.take(rest@.len() as int),
            out@ == s.skip(rest@.len() as int).reverse(),
        decreases rest@.len(),
    {
        let x = match rest.pop() {
            Some(x) => x,
            None => unreached(),
        };
        out.push(x);
        proof {
            assert(rest@ =~= s.take(rest@.len() as int));
            assert(out@ =~= s.skip(rest@.len() as int).reverse());
        }
    }
    proof {
        assert(s.skip(0) =~= s);
    }
    out
}

impl SortOption {
    /// Apply this criterion as one pass over the working sequence: a
    /// stable sort by its key, or a whole-sequence reversal for `Reverse`.
    /// No pass discards entries: the result is a pure reordering.
    pub fn sort(self, vec: Vec<FileInfo>) -> (r: Vec<FileInfo>)
        ensures
            r@ == sort_pass(self, vec@),
    {
        match self {
            SortOption::Reverse => reverse_entries(vec),
            SortOption::IsDirectory => sort_by_order(EntryOrder::ByKind, vec),
            SortOption::Name => sort_by_order(EntryOrder::ByName, vec),
            SortOption::Size => sort_by_order(EntryOrder::BySize, vec),
            SortOption::Creation => sort_by_order(EntryOrder::ByCreated, vec),
            SortOption::Modification => sort_by_order(EntryOrder::ByModified, vec),
        }
    }
}

/// The whole chain, applied left to right: each criterion re-sorts (or
/// reverses) the sequence the previous passes produced.
pub open spec fn chain_apply(chain: Seq<SortOption>, s: Seq<FileInfo>) -> Seq<FileInfo>
    decreases chain.len(),
{
    if chain.len() == 0 {
        s
    } else {
        sort_pass(chain.last(), chain_apply(chain.drop_last(), s))
    }
}

/// Apply a sort chain to the entries, one stable pass per criterion, in
/// chain order. An empty chain leaves the sequence unchanged.
pub fn apply_chain(chain: &Vec<SortOption>, entries: Vec<FileInfo>) -> (r: Vec<FileInfo>)
    ensures
        r@ == chain_apply(chain@, entries@),
{
    let ghost s = entries@;
    let mut out = entries;
    let mut i: usize = 0;
    while i < chain.len()
        invariant
            i <= chain@.len(),
            out@ == chain_apply(chain@.take(i as int), s),
        decreases chain@.len() - i,
    {
        out = chain[i].sort(out);
        proof {
            assert(chain@.take(i + 1).drop_last() =~= chain@.take(i as int));
            assert(chain@.take(i + 1).last() == chain@[i as int]);
        }
        i = i + 1;
    }
    proof {
        assert(chain@.take(chain@.len() as int) =~= chain@);
    }
    out
}

/// The default ordering, applied to every listing independently of any
/// user chain: a stable sort putting directories first and ordering
/// entries of the same kind by lowercased name.
pub fn default_order(entries: Vec<FileInfo>) -> (r: Vec<FileInfo>)
    ensures
        r@ == stable_sorted(EntryOrder::DirFirstName, entries@),
        ordered_by(EntryOrder::DirFirstName, r@),
        r@.to_multiset() == entries@.to_multiset(),
{
    proof {
        lemma_stable_sorted_sorted(EntryOrder::DirFirstName, entries@);
        lemma_stable_sorted_multiset(EntryOrder::DirFirstName, entries@);
    }
    sort_by_order(EntryOrder::DirFirstName, entries)
}

/// The entries that tie with `x` under `o`: those comparing less-or-equal
/// to `x` in both directions.
pub open spec fn ties(o: EntryOrder, x: FileInfo) -> spec_fn(FileInfo) -> bool {
    |e: FileInfo| order_le(o, e, x) && order_le(o, x, e)
}

/// A filter keeping no element filters to the empty sequence.
proof fn lemma_filter_none(t: Seq<FileInfo>, p: spec_fn(FileInfo) -> bool)
    requires
        forall|k: int| 0 <= k < t.len() ==> !p(t[k]),
    ensures
        t.filter(p) == Seq::<FileInfo>::empty(),
    decreases t.len(),
{
    reveal(Seq::filter);
    if t.len() > 0 {
        assert(forall|k: int| 0 <= k < t.len() - 1 ==> t.drop_last()[k] == t[k]);
        lemma_filter_none(t.drop_last(), p);
    }
}

/// Inserting `y` into an ordered sequence leaves the subsequence tying
/// with any pivot `x` intact, with `y` appended to it when `y` itself
/// ties: `y` never jumps ahead of an earlier tying entry.
proof fn lemma_insert_ordered_ties(o: EntryOrder, t: Seq<FileInfo>, y: FileInfo, x: FileInfo)
    requires
        ordered_by(o, t),
    ensures
        insert_ordered(o, t, y).filter(ties(o, x)) == (if ties(o, x)(y) {
            t.filter(ties(o, x)).push(y)
        } else {
            t.filter(ties(o, x))
        }),
    decreases t.len(),
{
    reveal(Seq::filter);
    let p = ties(o, x);
    if t.len() == 0 {
        assert(t =~= Seq::<FileInfo>::empty());
        assert(seq![y].drop_last() =~= t);
        if p(y) {
            assert(seq![y].filter(p) =~= t.filter(p).push(y));
        } else {
            assert(seq![y].filter(p) =~= t.filter(p));
        }
    } else if order_le(o, t[0], y) {
        let t1 = t.drop_first();
        assert(forall|k: int| 0 <= k < t1.len() ==> t1[k] == t[k + 1]);
        assert forall|i: int, j: int| 0 <= i < j < t1.len() implies order_le(o, t1[i], t1[j]) by {
            assert(order_le(o, t[i + 1], t[j + 1]));
        }
        lemma_insert_ordered_ties(o, t1, y, x);
        Seq::filter_distributes_over_add(seq![t[0]], insert_ordered(o, t1, y), p);
        Seq::filter_distributes_over_add(seq![t[0]], t1, p);
        assert(seq![t[0]] + t1 =~= t);
        if p(y) {
            assert(seq![t[0]].filter(p) + t1.filter(p).push(y) =~= (seq![t[0]].filter(p)
                + t1.filter(p)).push(y));
        }
    } else {
        Seq::filter_distributes_over_add(seq![y], t, p);
        assert(seq![y].drop_last() =~= Seq::<FileInfo>::empty());
        assert(Seq::<FileInfo>::empty().filter(p) =~= Seq::<FileInfo>::empty());
        if p(y) {
            assert(seq![y].filter(p) =~= Seq::<FileInfo>::empty().push(y));
        } else {
            assert(seq![y].filter(p) =~= Seq::<FileInfo>::empty());
        }
        if p(y) {
            assert forall|k: int| 0 <= k < t.len() implies !p(t[k]) by {
                if p(t[k]) {
                    lemma_order_le_trans(o, t[k], x, y);
                    if k > 0 {
                        lemma_order_le_trans(o, t[0], t[k], y);
                    }
                }
            }
            lemma_filter_none(t, p);
            assert(seq![y].filter(p) + t.filter(p) =~= t.filter(p).push(y));
        } else {
            assert(seq![y].filter(p) + t.filter(p) =~= t.filter(p));
        }
    }
}

/// Stability of the stable sort: entries that tie under the comparator
/// keep their input order. For every pivot `x`, the subsequence of entries
/// tying with `x` reads the same, in the same order, before and after the
/// sort.
pub proof fn lemma_stable_sorted_stable(o: EntryOrder, s: Seq<FileInfo>, x: FileInfo)
    ensures
        stable_sorted(o, s).filter(ties(o, x)) == s.filter(ties(o, x)),
    decreases s.len(),
{
    reveal(Seq::filter);
    if s.len() > 0 {
        lemma_stable_sorted_stable(o, s.drop_last(), x);
        lemma_stable_sorted_sorted(o, s.drop_last());
        lemma_insert_ordered_ties(o, stable_sorted(o, s.drop_last()), s.last(), x);
    }
}

/// No criterion discards entries: applying a whole chain is a pure
/// reordering, keeping exactly the input entries with their
/// multiplicities.
pub proof fn lemma_chain_apply_multiset(chain: Seq<SortOption>, s: Seq<FileInfo>)
    ensures
        chain_apply(chain, s).to_multiset() == s.to_multiset(),
    decreases chain.len(),
{
    if chain.len() > 0 {
        lemma_chain_apply_multiset(chain.drop_last(), s);
        let prev = chain_apply(chain.drop_last(), s);
        match chain.last() {
            SortOption::Reverse => {
                prev.lemma_reverse_to_multiset();
            },
            _ => {
                lemma_stable_sorted_multiset(criterion_order(chain.last()), prev);
            },
        }
    }
}

/// Under the default ordering a directory always sorts before a file,
/// whatever the two names: in the default-ordered sequence no file is
/// followed by a directory.
pub proof fn lemma_default_order_directories_first(s: Seq<FileInfo>, i: int, j: int)
    requires
        0 <= i < j < stable_sorted(EntryOrder::DirFirstName, s).len(),
        stable_sorted(EntryOrder::DirFirstName, s)[j].kind is Directory,
    ensures
        stable_sorted(EntryOrder::DirFirstName, s)[i].kind is Directory,
{
    lemma_stable_sorted_sorted(EntryOrder::DirFirstName, s);
    let out = stable_sorted(EntryOrder::DirFirstName, s);
    assert(order_le(EntryOrder::DirFirstName, out[i], out[j]));
}

} // verus!
