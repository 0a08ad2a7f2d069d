//! The listing formatter: one aligned line per archive entry, sorted by path.
use vstd::prelude::*;
use humansize::FileSize;
use unicode_width::UnicodeWidthStr;

verus! {

/// One archive entry as the entry reader hands it over.
pub struct ArchiveEntry {
    pub path: String,
    pub size: u64,
}

impl View for ArchiveEntry {
    type V = (Seq<char>, u64);

    open spec fn view(&self) -> (Seq<char>, u64) {
        (self.path@, self.size)
    }
}

impl ArchiveEntry {
    /// A copy of this entry.
    pub fn copy(&self) -> (r: ArchiveEntry)
        ensures
            r@ == self@,
    {
        ArchiveEntry { path: self.path.clone(), size: self.size }
    }
}

/// What humansize renders for a byte count `n` with binary (IEC) units,
/// showing `zeroes` decimal zeroes where the mantissa is whole.
pub uninterp spec fn binary_size_text(n: u64, zeroes: usize) -> Seq<char>;

/// The number of terminal cells that a string occupies.
pub uninterp spec fn display_width(s: Seq<char>) -> usize;

/// Relies on humansize's `FileSize::file_size` with the `BINARY` options but
/// for `decimal_zeroes`; it never fails on an unsigned count.
#[verifier::external_body]
fn binary_size(n: u64, zeroes: usize) -> (r: String)
    requires
        zeroes <= 2,
    ensures
        r@ == binary_size_text(n, zeroes),
{
    let opts = humansize::file_size_opts::FileSizeOpts {
        decimal_zeroes: zeroes,
        ..humansize::file_size_opts::BINARY
    };
    n.file_size(opts).unwrap_or_default()
}

/// Plain byte counts show no decimals; larger units always show two.
pub open spec fn size_zeroes(n: u64) -> usize {
    if n < 1024 {
        0
    } else {
        2
    }
}

/// How a size is displayed: "187 B", "1.00 KiB", "11.09 KiB".
pub open spec fn size_display(n: u64) -> Seq<char> {
    binary_size_text(n, size_zeroes(n))
}

/// How a size is displayed.
pub fn format_size(n: u64) -> (r: String)
    ensures
        r@ == size_display(n),
{
    let zeroes: usize = if n < 1024 {
        0
    } else {
        2
    };
    binary_size(n, zeroes)
}

/// Relies on unicode-width's `UnicodeWidthStr::width`.
#[verifier::external_body]
fn text_width(s: &str) -> (r: usize)
    ensures
        r == display_width(s@),
{
    s.width()
}

/// Lexicographic order on paths, character by character.
pub open spec fn path_le(a: Seq<char>, b: Seq<char>) -> bool
    decreases a.len(),
{
    if a.len() == 0 {
        true
    } else if b.len() == 0 {
        false
    } else if a[0] as u32 != b[0] as u32 {
        (a[0] as u32) < (b[0] as u32)
    } else {
        path_le(a.drop_first(), b.drop_first())
    }
}

/// Any two paths are ordered one way or the other.
pub proof fn lemma_path_le_total(a: Seq<char>, b: Seq<char>)
    ensures
        path_le(a, b) || path_le(b, a),
    decreases a.len(),
{
    if a.len() > 0 && b.len() > 0 && a[0] as u32 == b[0] as u32 {
        lemma_path_le_total(a.drop_first(), b.drop_first());
    }
}

/// Compares two paths in the order of `path_le`.
pub fn path_le_exec(a: &str, b: &str) -> (r: bool)
    ensures
        r == path_le(a@, b@),
{
    let la = a.unicode_len();
    let lb = b.unicode_len();
    let mut i: usize = 0;
    proof {
        assert(a@.skip(0) =~= a@);
        assert(b@.skip(0) =~= b@);
    }
    while i < la && i < lb
        invariant
            i <= la,
            i <= lb,
            la == a@.len(),
            lb == b@.len(),
            path_le(a@, b@) == path_le(a@.skip(i as int), b@.skip(i as int)),
        decreases la - i,
    {
        let ca = a.get_char(i);
        let cb = b.get_char(i);
        if ca as u32 != cb as u32 {
            return (ca as u32) < (cb as u32);
        }
        proof {
            assert(a@.skip(i as int).drop_first() =~= a@.skip(i + 1));
            assert(b@.skip(i as int).drop_first() =~= b@.skip(i + 1));
        }
        i = i + 1;
    }
    i == la
}

/// The views of a sequence of entries.
pub open spec fn entry_views(v: Seq<ArchiveEntry>) -> Seq<(Seq<char>, u64)> {
    v.map_values(|e: ArchiveEntry| e@)
}

/// Where `x` goes in `t` so that it follows every entry whose path is not
/// greater than its own.
pub open spec fn insertion_point(t: Seq<(Seq<char>, u64)>, x: (Seq<char>, u64)) -> nat
    decreases t.len(),
{
    if t.len() == 0 {
        0
    } else if path_le(t.last().0, x.0) {
        t.len()
    } else {
        insertion_point(t.drop_last(), x)
    }
}

/// The entries stably sorted by path.
pub open spec fn sorted_by_path(s: Seq<(Seq<char>, u64)>) -> Seq<(Seq<char>, u64)>
    decreases s.len(),
{
    if s.len() == 0 {
        s
    } else {
        let t = sorted_by_path(s.drop_last());
        t.insert(insertion_point(t, s.last()) as int, s.last())
    }
}

proof fn lemma_insertion_point_bound(t: Seq<(Seq<char>, u64)>, x: (Seq<char>, u64))
    ensures
        insertion_point(t, x) <= t.len(),
    decreases t.len(),
{
    if t.len() > 0 {
        lemma_insertion_point_bound(t.drop_last(), x);
    }
}

proof fn lemma_sorted_len(s: Seq<(Seq<char>, u64)>)
    ensures
        sorted_by_path(s).len() == s.len(),
    decreases s.len(),
{
    if s.len() > 0 {
        lemma_sorted_len(s.drop_last());
        lemma_insertion_point_bound(sorted_by_path(s.drop_last()), s.last());
    }
}

/// The entries stably sorted by path; entries with equal paths keep their order.
pub fn sort_by_path(entries: &Vec<ArchiveEntry>) -> (r: Vec<ArchiveEntry>)
    ensures
        entry_views(r@) == sorted_by_path(entry_views(entries@)),
{
    let mut out: Vec<ArchiveEntry> = Vec::new();
    let mut i: usize = 0;
    proof {
        assert(entry_views(entries@).take(0) =~= Seq::<(Seq<char>, u64)>::empty());
        assert(entry_views(out@) =~= Seq::<(Seq<char>, u64)>::empty());
    }
    while i < entries.len()
        invariant
            i <= entries.len(),
            entry_views(out@) == sorted_by_path(entry_views(entries@).take(i as int)),
        decreases entries.len() - i,
    {
        let x = entries[i].copy();
        let ghost t = entry_views(out@);
        let mut j: usize = out.len();
        proof {
            assert(t.take(j as int) =~= t);
        }
        while j > 0 && !path_le_exec(&out[j - 1].path, &x.path)
            invariant
                j <= out.len(),
                t == entry_views(out@),
                insertion_point(t, x@) == insertion_point(t.take(j as int), x@),
            decreases j,
        {
            proof {
                assert(t.take(j as int).drop_last() =~= t.take(j - 1));
            }
            j = j - 1;
        }
        proof {
            assert(t.take(j as int).len() == j);
            if j > 0 {
                assert(t.take(j as int).last() == t[j - 1]);
            }
        }
        out.insert(j, x);
        proof {
            let s = entry_views(entries@).take(i + 1);
            assert(s.drop_last() =~= entry_views(entries@).take(i as int));
            assert(s.last() == x@);
            assert(entry_views(out@) =~= t.insert(j as int, x@));
        }
        i = i + 1;
    }
    proof {
        assert(entry_views(entries@).take(i as int) =~= entry_views(entries@));
    }
    out
}

/// The widest path among the entries, in terminal cells.
pub open spec fn max_width(s: Seq<(Seq<char>, u64)>) -> usize
    decreases s.len(),
{
    if s.len() == 0 {
        0
    } else {
        let m = max_width(s.drop_last());
        let w = display_width(s.last().0);
        if w > m {
            w
        } else {
            m
        }
    }
}

/// How many spaces bring a path of width `w` to the column width `m`.
pub open spec fn pad_len(w: usize, m: usize) -> nat {
    if w <= m {
        (m - w) as nat
    } else {
        0
    }
}

/// `n` spaces.
pub open spec fn spaces(n: nat) -> Seq<char> {
    Seq::new(n, |k: int| ' ')
}

/// The line of one entry in a listing whose path column is `m` cells wide.
pub open spec fn listing_line(e: (Seq<char>, u64), m: usize) -> Seq<char> {
    e.0 + spaces(pad_len(display_width(e.0), m)) + seq![' '] + size_display(e.1)
}

/// The lines of a listing: the entries sorted by path, each path padded to
/// the widest one, then a space and the size.
pub open spec fn listing(s: Seq<(Seq<char>, u64)>) -> Seq<Seq<char>> {
    sorted_by_path(s).map_values(|e: (Seq<char>, u64)| listing_line(e, max_width(s)))
}

/// The widest path among the entries.
pub fn widest_path(entries: &Vec<ArchiveEntry>) -> (r: usize)
    ensures
        r == max_width(entry_views(entries@)),
{
    let mut m: usize = 0;
    let mut i: usize = 0;
    while i < entries.len()
        invariant
            i <= entries.len(),
            m == max_width(entry_views(entries@).take(i as int)),
        decreases entries.len() - i,
    {
        let w = text_width(entries[i].path.as_str());
        proof {
            let s = entry_views(entries@).take(i + 1);
            assert(s.drop_last() =~= entry_views(entries@).take(i as int));
            assert(s.last().0 == entries@[i as int].path@);
        }
        if w > m {
            m = w;
        }
        i = i + 1;
    }
    proof {
        assert(entry_views(entries@).take(i as int) =~= entry_views(entries@));
    }
    m
}

/// The line of one entry in a listing whose path column is `m` cells wide.
pub fn format_line(e: &ArchiveEntry, m: usize) -> (r: String)
    ensures
        r@ == listing_line(e@, m),
{
    let w = text_width(e.path.as_str());
    let pad: usize = if w <= m {
        m - w
    } else {
        0
    };
    let mut line = e.path.clone();
    let mut k: usize = 0;
    proof {
        reveal_strlit(" ");
    }
    while k < pad
        invariant
            k <= pad,
            line@ == e.path@ + spaces(k as nat),
        decreases pad - k,
    {
        line.append(" ");
        proof {
            reveal_strlit(" ");
            assert(e.path@ + spaces(k as nat) + " "@ =~= e.path@ + spaces((k + 1) as nat));
        }
        k = k + 1;
    }
    line.append(" ");
    proof {
        reveal_strlit(" ");
    }
    let size = format_size(e.size);
    line.append(size.as_str());
    proof {
        assert(line@ =~= listing_line(e@, m));
    }
    line
}

/// The listing of an archive's entries, one line per entry.
pub fn format_listing(entries: &Vec<ArchiveEntry>) -> (r: Vec<String>)
    ensures
        r@.map_values(|l: String| l@) == listing(entry_views(entries@)),
{
    let m = widest_path(entries);
    let sorted = sort_by_path(entries);
    proof {
        lemma_sorted_len(entry_views(entries@));
    }
    let mut lines: Vec<String> = Vec::new();
    let mut i: usize = 0;
    while i < sorted.len()
        invariant
            i <= sorted.len(),
            m == max_width(entry_views(entries@)),
            entry_views(sorted@) == sorted_by_path(entry_views(entries@)),
            lines@.len() == i,
            forall|k: int| 0 <= k < i ==> #[trigger] lines@[k]@ == listing_line(sorted@[k]@, m),
        decreases sorted.len() - i,
    {
        let line = format_line(&sorted[i], m);
        lines.push(line);
        i = i + 1;
    }
    proof {
        assert(lines@.map_values(|l: String| l@) =~= listing(entry_views(entries@)));
    }
    lines
}

/// Whether the entries are in `path_le` order.
pub open spec fn is_sorted_by_path(t: Seq<(Seq<char>, u64)>) -> bool {
    forall|i: int| 0 <= i < t.len() - 1 ==> path_le(#[trigger] t[i].0, t[i + 1].0)
}

proof fn lemma_insert_keeps_sorted(t: Seq<(Seq<char>, u64)>, x: (Seq<char>, u64))
    requires
        is_sorted_by_path(t),
    ensures
        is_sorted_by_path(t.insert(insertion_point(t, x) as int, x)),
    decreases t.len(),
{
    lemma_insertion_point_bound(t, x);
    let r = t.insert(insertion_point(t, x) as int, x);
    if t.len() == 0 {
    } else if path_le(t.last().0, x.0) {
        assert(r =~= t.push(x));
        assert forall|i: int| 0 <= i < r.len() - 1 implies path_le(#[trigger] r[i].0, r[i + 1].0) by {
            if i < t.len() - 1 {
                assert(r[i] == t[i] && r[i + 1] == t[i + 1]);
            }
        }
    } else {
        let d = t.drop_last();
        let p = insertion_point(d, x);
        lemma_insertion_point_bound(d, x);
        assert(is_sorted_by_path(d)) by {
            assert forall|i: int| 0 <= i < d.len() - 1 implies path_le(#[trigger] d[i].0, d[i + 1].0) by {
                assert(d[i] == t[i] && d[i + 1] == t[i + 1]);
            }
        }
        lemma_insert_keeps_sorted(d, x);
        let u = d.insert(p as int, x);
        assert(r =~= u.push(t.last()));
        lemma_path_le_total(t.last().0, x.0);
        assert(path_le(u.last().0, t.last().0)) by {
            if p == d.len() {
                assert(u.last() == x);
            } else {
                assert(u.last() == t[t.len() - 2]);
            }
        }
        assert forall|i: int| 0 <= i < r.len() - 1 implies path_le(#[trigger] r[i].0, r[i + 1].0) by {
            if i < u.len() - 1 {
                assert(r[i] == u[i] && r[i + 1] == u[i + 1]);
            }
        }
    }
}

proof fn lemma_sorted_is_sorted_permutation(s: Seq<(Seq<char>, u64)>)
    ensures
        is_sorted_by_path(sorted_by_path(s)),
        sorted_by_path(s).to_multiset() == s.to_multiset(),
    decreases s.len(),
{
    broadcast use vstd::seq_lib::group_to_multiset_ensures;
    if s.len() > 0 {
        let t = sorted_by_path(s.drop_last());
        lemma_sorted_is_sorted_permutation(s.drop_last());
        lemma_insert_keeps_sorted(t, s.last());
        lemma_insertion_point_bound(t, s.last());
        assert(s =~= s.drop_last().push(s.last()));
        vstd::seq_lib::to_multiset_insert(t, insertion_point(t, s.last()) as int, s.last());
        vstd::seq_lib::to_multiset_build(s.drop_last(), s.last());
    }
}

proof fn lemma_max_width_bounds(s: Seq<(Seq<char>, u64)>)
    ensures
        forall|k: int| 0 <= k < s.len() ==> display_width(#[trigger] s[k].0) <= max_width(s),
        s.len() > 0 ==> exists|k: int| 0 <= k < s.len() && display_width(#[trigger] s[k].0) == max_width(s),
    decreases s.len(),
{
    if s.len() > 0 {
        let d = s.drop_last();
        lemma_max_width_bounds(d);
        assert forall|k: int| 0 <= k < s.len() implies display_width(#[trigger] s[k].0) <= max_width(s) by {
            if k < d.len() {
                assert(s[k] == d[k]);
            }
        }
        if display_width(s.last().0) > max_width(d) || d.len() == 0 {
            assert(display_width(s[s.len() - 1].0) == max_width(s));
        } else {
            let k = choose|k: int| 0 <= k < d.len() && display_width(#[trigger] d[k].0) == max_width(d);
            assert(s[k] == d[k]);
        }
    }
}

/// A listing has one line per entry and drops none; its entries are sorted
/// by path; and each line is its entry's path padded with spaces to exactly
/// the widest path among all entries, then a space and the size.
pub proof fn lemma_listing_sorted_and_padded(s: Seq<(Seq<char>, u64)>)
    ensures
        listing(s).len() == s.len(),
        sorted_by_path(s).to_multiset() == s.to_multiset(),
        is_sorted_by_path(sorted_by_path(s)),
        s.len() > 0 ==> exists|k: int| 0 <= k < s.len() && display_width(#[trigger] s[k].0) == max_width(s),
        forall|i: int| 0 <= i < s.len() ==> {
            let e = #[trigger] sorted_by_path(s)[i];
            &&& display_width(e.0) <= max_width(s)
            &&& listing(s)[i] == e.0 + spaces((max_width(s) - display_width(e.0)) as nat) + seq![' ']
                + size_display(e.1)
        },
{
    broadcast use vstd::seq_lib::group_to_multiset_ensures;
    lemma_sorted_len(s);
    lemma_sorted_is_sorted_permutation(s);
    lemma_max_width_bounds(s);
    let t = sorted_by_path(s);
    assert forall|i: int| 0 <= i < s.len() implies {
        let e = #[trigger] sorted_by_path(s)[i];
        &&& display_width(e.0) <= max_width(s)
        &&& listing(s)[i] == e.0 + spaces((max_width(s) - display_width(e.0)) as nat) + seq![' ']
            + size_display(e.1)
    } by {
        let e = t[i];
        assert(t.contains(e));
        assert(s.to_multiset().count(e) > 0);
        assert(s.contains(e));
        let k = choose|k: int| 0 <= k < s.len() && s[k] == e;
        assert(display_width(s[k].0) <= max_width(s));
    }
}

/// Whether an entry has path `k`.
pub open spec fn has_path(k: Seq<char>) -> spec_fn((Seq<char>, u64)) -> bool {
    |e: (Seq<char>, u64)| e.0 == k
}

proof fn lemma_path_le_reflexive(a: Seq<char>)
    ensures
        path_le(a, a),
    decreases a.len(),
{
    if a.len() > 0 {
        lemma_path_le_reflexive(a.drop_first());
    }
}

proof fn lemma_after_insertion_point(t: Seq<(Seq<char>, u64)>, x: (Seq<char>, u64))
    ensures
        forall|j: int| insertion_point(t, x) <= j < t.len() ==> !path_le(#[trigger] t[j].0, x.0),
    decreases t.len(),
{
    if t.len() > 0 && !path_le(t.last().0, x.0) {
        let d = t.drop_last();
        lemma_after_insertion_point(d, x);
        assert forall|j: int| insertion_point(t, x) <= j < t.len() implies !path_le(#[trigger] t[j].0, x.0) by {
            if j < d.len() {
                assert(t[j] == d[j]);
            }
        }
    }
}

proof fn lemma_insert_with_path(t: Seq<(Seq<char>, u64)>, x: (Seq<char>, u64), k: Seq<char>)
    ensures
        t.insert(insertion_point(t, x) as int, x).filter(has_path(k)) == if x.0 == k {
            t.filter(has_path(k)).push(x)
        } else {
            t.filter(has_path(k))
        },
{
    let f = has_path(k);
    let p = insertion_point(t, x) as int;
    lemma_insertion_point_bound(t, x);
    lemma_after_insertion_point(t, x);
    let a = t.take(p);
    let b = t.skip(p);
    assert(t.insert(p, x) =~= a + seq![x] + b);
    assert(t =~= a + b);
    Seq::filter_distributes_over_add(a + seq![x], b, f);
    Seq::filter_distributes_over_add(a, seq![x], f);
    Seq::filter_distributes_over_add(a, b, f);
    reveal_with_fuel(Seq::filter, 2);
    assert(seq![x].drop_last() =~= Seq::<(Seq<char>, u64)>::empty());
    if x.0 == k {
        assert(seq![x].filter(f) =~= seq![x]);
        assert(b.all(|y: (Seq<char>, u64)| !f(y))) by {
            assert forall|i: int| 0 <= i < b.len() implies !f(b[i]) by {
                assert(b[i] == t[p + i]);
                if b[i].0 == k {
                    lemma_path_le_reflexive(k);
                }
            }
        }
        b.lemma_all_neg_filter_empty(f);
        assert(b.filter(f) =~= Seq::<(Seq<char>, u64)>::empty());
        assert(a.filter(f) + seq![x] =~= (a.filter(f) + b.filter(f)).push(x));
    } else {
        assert(seq![x].filter(f) =~= Seq::<(Seq<char>, u64)>::empty());
        assert(a.filter(f) + Seq::<(Seq<char>, u64)>::empty() =~= a.filter(f));
    }
}

/// The sort is stable: for every path, the entries with that path come out
/// in the order in which they went in.
pub proof fn lemma_sort_is_stable(s: Seq<(Seq<char>, u64)>, k: Seq<char>)
    ensures
        sorted_by_path(s).filter(has_path(k)) == s.filter(has_path(k)),
    decreases s.len(),
{
    if s.len() > 0 {
        let d = s.drop_last();
        let l = s.last();
        lemma_sort_is_stable(d, k);
        lemma_insert_with_path(sorted_by_path(d), l, k);
        assert(s =~= d + seq![l]);
        Seq::filter_distributes_over_add(d, seq![l], has_path(k));
        reveal_with_fuel(Seq::filter, 2);
        assert(seq![l].drop_last() =~= Seq::<(Seq<char>, u64)>::empty());
        if l.0 == k {
            assert(seq![l].filter(has_path(k)) =~= seq![l]);
            assert(d.filter(has_path(k)) + seq![l] =~= d.filter(has_path(k)).push(l));
        } else {
            assert(seq![l].filter(has_path(k)) =~= Seq::<(Seq<char>, u64)>::empty());
            assert(d.filter(has_path(k)) + Seq::<(Seq<char>, u64)>::empty() =~= d.filter(has_path(k)));
        }
    }
}

} // verus!
