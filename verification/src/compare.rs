//! The reconciliation engine: deciding which tracked entries are
//! behind the latest published unit, partitioning a list across a
//! worker pool, and joining the partitions' results in order.
//!
//! The functions here are pure: they take each entry's catalog lookup
//! as a value. The caller that owns the network performs the lookups —
//! resolving the cross-reference and fetching the feed — and runs one
//! worker per partition; joining in partition order makes the result
//! independent of the workers' wall-clock interleaving.

use vstd::prelude::*;
use crate::anilist::{MediaEntries, MediaList};
use crate::numbers::{UnitNumber, decimal_seq, u64_to_decimal};

verus! {

/// `s` with every occurrence of `pat` replaced by `rep`.
pub open spec fn replace_seq(s: Seq<char>, pat: char, rep: Seq<char>) -> Seq<char>
    decreases s.len(),
{
    if s.len() == 0 {
        Seq::empty()
    } else {
        replace_seq(s.drop_last(), pat, rep) + (if s.last() == pat {
            rep
        } else {
            seq![s.last()]
        })
    }
}

/// Replaces every occurrence of the character `pat` in `s` by `rep`.
fn replace_char(s: &str, pat: char, rep: &str) -> (r: String)
    ensures
        r@ == replace_seq(s@, pat, rep@),
{
    let mut out = String::new();
    let len = s.unicode_len();
    let mut i: usize = 0;
    while i < len
        invariant
            0 <= i <= len,
            len == s@.len(),
            out@ == replace_seq(s@.subrange(0, i as int), pat, rep@),
        decreases len - i,
    {
        let c = s.get_char(i);
        if c == pat {
            out.append(rep);
        } else {
            out.append(s.substring_char(i, i + 1));
            proof {
                assert(s@.subrange(i as int, i + 1) =~= seq![s@[i as int]]);
            }
        }
        proof {
            assert(s@.subrange(0, i + 1).drop_last() =~= s@.subrange(0, i as int));
            assert(s@.subrange(0, i + 1).last() == s@[i as int]);
        }
        i = i + 1;
    }
    proof {
        assert(s@.subrange(0, len as int) =~= s@);
    }
    out
}

/// How a terminal hyperlink is written: the escape-sequence frame
/// around the link — with escape and newline characters in the link
/// escaped — and the visible text.
pub open spec fn hyperlink_seq(link: Seq<char>, text: Seq<char>) -> Seq<char> {
    "\x1b]8;;"@ + replace_seq(replace_seq(link, '\x1b', "\\e"@), '\n', "\\n"@) + "\x07"@ + text
        + "\x1b]8;;"@ + "\x07"@
}

/// Frames `text` as a terminal hyperlink to `link`, escaping the
/// characters of the link that would break the escape sequence.
pub fn generate_terminal_hyperlink(link: String, text: &str) -> (r: String)
    ensures
        r@ == hyperlink_seq(link@, text@),
{
    let escaped = replace_char(
        replace_char(link.as_str(), '\x1b', "\\e").as_str(),
        '\n',
        "\\n",
    );
    let mut out = String::from_str("\x1b]8;;");
    out.append(escaped.as_str());
    out.append("\x07");
    out.append(text);
    out.append("\x1b]8;;");
    out.append("\x07");
    proof {
        assert(out@ =~= hyperlink_seq(link@, text@));
    }
    out
}

/// The catalog page of a title, from its catalog id.
pub fn mangadex_title_url(title_id: &str) -> (r: String)
    ensures
        r@ == "https://mangadex.org/title/"@ + title_id@,
{
    let mut out = String::from_str("https://mangadex.org/title/");
    out.append(title_id);
    out
}

/// An entry the user is behind on: the catalog id and title of the
/// work, the recorded progress, and the latest published unit.
pub struct UnreadManga {
    pub id: String,
    pub title: String,
    pub chapter: u16,
    pub latest: UnitNumber,
}

/// The mathematical value of an [`UnreadManga`]: its strings as
/// character sequences and its unit number as whole part and
/// fractional digits.
pub struct UnreadView {
    pub id: Seq<char>,
    pub title: Seq<char>,
    pub chapter: u16,
    pub whole: u64,
    pub frac: Seq<u8>,
}

impl View for UnreadManga {
    type V = UnreadView;

    open spec fn view(&self) -> UnreadView {
        UnreadView {
            id: self.id@,
            title: self.title@,
            chapter: self.chapter,
            whole: self.latest.whole,
            frac: self.latest.frac@,
        }
    }
}

impl UnreadManga {
    /// How an unread item is reported: its title as a terminal
    /// hyperlink to its catalog page, then the recorded progress and
    /// the latest published unit.
    pub open spec fn display_spec(self) -> Seq<char> {
        hyperlink_seq("https://mangadex.org/title/"@ + self.id@, self.title@) + ": current: "@
            + decimal_seq(self.chapter as nat) + ", latest: "@ + self.latest.display_seq()
    }

    /// Writes the report line for this item.
    pub fn to_display_string(&self) -> (r: String)
        requires
            self.latest.wf(),
        ensures
            r@ == self.display_spec(),
    {
        let url = mangadex_title_url(self.id.as_str());
        let mut out = generate_terminal_hyperlink(url, self.title.as_str());
        out.append(": current: ");
        let chapter = u64_to_decimal(self.chapter as u64);
        out.append(chapter.as_str());
        out.append(", latest: ");
        let latest = self.latest.to_decimal_string();
        out.append(latest.as_str());
        proof {
            assert(out@ =~= self.display_spec());
        }
        out
    }
}

/// What looking one entry up against the catalog yielded.
pub enum EntryLookup {
    /// No catalog entry carries this entry's cross-reference id.
    NoMatch,
    /// A catalog entry matched, but it has no release in the requested
    /// language.
    NoTranslation,
    /// A catalog entry matched and its feed has releases in the
    /// requested language, the latest being `latest`.
    Found { catalog_id: String, latest: UnitNumber },
}

/// The reconciliation rule for one entry: it is unread exactly when a
/// catalog match exists, a translation exists in the requested
/// language, and the recorded progress lies strictly below the latest
/// unit.
pub open spec fn entry_unread(entry: MediaList, lookup: EntryLookup) -> bool {
    match lookup {
        EntryLookup::Found { catalog_id: _, latest } => latest.exceeds(entry.progress),
        _ => false,
    }
}

/// What one entry contributes to the result: one item when it is
/// unread, nothing otherwise.
pub open spec fn entry_views(entry: MediaList, lookup: EntryLookup) -> Seq<UnreadView> {
    match lookup {
        EntryLookup::Found { catalog_id, latest } => if latest.exceeds(entry.progress) {
            seq![
                UnreadView {
                    id: catalog_id@,
                    title: entry.media.title.romaji@,
                    chapter: entry.progress,
                    whole: latest.whole,
                    frac: latest.frac@,
                },
            ]
        } else {
            Seq::empty()
        },
        _ => Seq::empty(),
    }
}

/// The result of reconciling a run of entries against their lookups:
/// each entry's contribution, in the entries' original order.
pub open spec fn filter_spec(entries: Seq<MediaList>, lookups: Seq<EntryLookup>) -> Seq<UnreadView>
    decreases entries.len(),
{
    if entries.len() == 0 {
        Seq::empty()
    } else {
        filter_spec(entries.drop_last(), lookups.drop_last()) + entry_views(
            entries.last(),
            lookups.last(),
        )
    }
}

/// The views of a result vector, element for element.
pub open spec fn result_views(r: Seq<UnreadManga>) -> Seq<UnreadView> {
    r.map_values(|u: UnreadManga| u@)
}

/// Reconciling a concatenation of runs is reconciling each run and
/// concatenating: the partition join only fixes the grouping.
pub proof fn lemma_filter_spec_concat(
    a: Seq<MediaList>,
    la: Seq<EntryLookup>,
    b: Seq<MediaList>,
    lb: Seq<EntryLookup>,
)
    requires
        a.len() == la.len(),
        b.len() == lb.len(),
    ensures
        filter_spec(a + b, la + lb) == filter_spec(a, la) + filter_spec(b, lb),
    decreases b.len(),
{
    if b.len() == 0 {
        assert(a + b =~= a);
        assert(la + lb =~= la);
        assert(filter_spec(a, la) + filter_spec(b, lb) =~= filter_spec(a, la));
    } else {
        assert((a + b).drop_last() =~= a + b.drop_last());
        assert((la + lb).drop_last() =~= la + lb.drop_last());
        assert((a + b).last() == b.last());
        assert((la + lb).last() == lb.last());
        lemma_filter_spec_concat(a, la, b.drop_last(), lb.drop_last());
        assert(filter_spec(a, la) + filter_spec(b, lb) =~= filter_spec(a, la) + filter_spec(
            b.drop_last(),
            lb.drop_last(),
        ) + entry_views(b.last(), lb.last()));
    }
}

/// An item is produced if and only if its entry is unread: every unread
/// entry's view is in the result, and everything in the result is some
/// unread entry's view.
pub proof fn lemma_unread_iff(entries: Seq<MediaList>, lookups: Seq<EntryLookup>)
    requires
        entries.len() == lookups.len(),
    ensures
        forall|i: int|
            0 <= i < entries.len() && entry_unread(entries[i], lookups[i]) ==> filter_spec(
                entries,
                lookups,
            ).contains(#[trigger] entry_views(entries[i], lookups[i])[0]),
        forall|v: UnreadView|
            filter_spec(entries, lookups).contains(v) ==> exists|i: int|
                0 <= i < entries.len() && entry_unread(entries[i], #[trigger] lookups[i]) && v
                    == entry_views(entries[i], lookups[i])[0],
    decreases entries.len(),
{
    if entries.len() > 0 {
        lemma_unread_iff(entries.drop_last(), lookups.drop_last());
        let n = entries.len() - 1;
        let front = filter_spec(entries.drop_last(), lookups.drop_last());
        let tail = entry_views(entries.last(), lookups.last());
        assert forall|i: int|
            0 <= i < entries.len() && entry_unread(entries[i], lookups[i]) implies filter_spec(
            entries,
            lookups,
        ).contains(#[trigger] entry_views(entries[i], lookups[i])[0]) by {
            if i < n {
                assert(entries.drop_last()[i] == entries[i]);
                assert(lookups.drop_last()[i] == lookups[i]);
                let v = entry_views(entries[i], lookups[i])[0];
                assert(front.contains(v));
                let k = choose|k: int| 0 <= k < front.len() && front[k] == v;
                assert(filter_spec(entries, lookups)[k] == v);
            } else {
                assert(entry_views(entries[i], lookups[i]).len() == 1);
                assert(filter_spec(entries, lookups)[front.len() as int] == entry_views(
                    entries[i],
                    lookups[i],
                )[0]);
            }
        }
        assert forall|v: UnreadView| filter_spec(entries, lookups).contains(v) implies exists|
            i: int,
        |
            0 <= i < entries.len() && entry_unread(entries[i], #[trigger] lookups[i]) && v
                == entry_views(entries[i], lookups[i])[0] by {
            let k = choose|k: int|
                0 <= k < filter_spec(entries, lookups).len() && filter_spec(entries, lookups)[k]
                    == v;
            if k < front.len() {
                assert(front[k] == v);
                assert(front.contains(v));
                let i = choose|i: int|
                    0 <= i < entries.drop_last().len() && entry_unread(
                        entries.drop_last()[i],
                        #[trigger] lookups.drop_last()[i],
                    ) && v == entry_views(entries.drop_last()[i], lookups.drop_last()[i])[0];
                assert(entries.drop_last()[i] == entries[i]);
                assert(lookups.drop_last()[i] == lookups[i]);
                assert(entry_unread(entries[i], lookups[i]) && v == entry_views(
                    entries[i],
                    lookups[i],
                )[0]);
            } else {
                assert(tail[k - front.len()] == v);
                assert(entry_unread(entries[n], lookups[n]) && v == entry_views(
                    entries[n],
                    lookups[n],
                )[0]);
            }
        }
    }
}

/// Reconciles one entry against its catalog lookup: an item exactly
/// when a match exists, a translation exists, and the recorded
/// progress lies strictly below the latest unit.
pub fn entry_outcome(entry: &MediaList, lookup: &EntryLookup) -> (r: Option<UnreadManga>)
    ensures
        (r is Some) == entry_unread(*entry, *lookup),
        (match r {
            Some(u) => seq![u@],
            None => Seq::empty(),
        }) == entry_views(*entry, *lookup),
{
    match lookup {
        EntryLookup::Found { catalog_id, latest } => {
            if latest.exceeds_progress(entry.progress) {
                let u = UnreadManga {
                    id: catalog_id.clone(),
                    title: entry.media.title.romaji.clone(),
                    chapter: entry.progress,
                    latest: latest.duplicate(),
                };
                proof {
                    assert(seq![u@] =~= entry_views(*entry, *lookup));
                }
                Some(u)
            } else {
                None
            }
        },
        _ => None,
    }
}

/// Reconciles a run of entries, in order, against their lookups.
pub fn filter_entries(entries: &[MediaList], lookups: &[EntryLookup]) -> (r: Vec<UnreadManga>)
    requires
        entries@.len() == lookups@.len(),
    ensures
        result_views(r@) == filter_spec(entries@, lookups@),
{
    let mut r: Vec<UnreadManga> = Vec::new();
    let mut i: usize = 0;
    proof {
        assert(result_views(r@) =~= filter_spec(
            entries@.subrange(0, 0),
            lookups@.subrange(0, 0),
        ));
    }
    while i < entries.len()
        invariant
            0 <= i <= entries@.len(),
            entries@.len() == lookups@.len(),
            result_views(r@) == filter_spec(
                entries@.subrange(0, i as int),
                lookups@.subrange(0, i as int),
            ),
        decreases entries@.len() - i,
    {
        let outcome = entry_outcome(&entries[i], &lookups[i]);
        proof {
            assert(entries@.subrange(0, i + 1).drop_last() =~= entries@.subrange(0, i as int));
            assert(lookups@.subrange(0, i + 1).drop_last() =~= lookups@.subrange(0, i as int));
            assert(entries@.subrange(0, i + 1).last() == entries@[i as int]);
            assert(lookups@.subrange(0, i + 1).last() == lookups@[i as int]);
        }
        let ghost before = r@;
        match outcome {
            Some(u) => {
                r.push(u);
                proof {
                    assert(result_views(r@) =~= result_views(before) + entry_views(
                        entries@[i as int],
                        lookups@[i as int],
                    ));
                }
            },
            None => {
                proof {
                    assert(result_views(r@) =~= result_views(before) + entry_views(
                        entries@[i as int],
                        lookups@[i as int],
                    ));
                }
            },
        }
        i = i + 1;
    }
    proof {
        assert(entries@.subrange(0, entries@.len() as int) =~= entries@);
        assert(lookups@.subrange(0, lookups@.len() as int) =~= lookups@);
    }
    r
}

/// How many workers a list actually gets: never more than it has
/// entries, never fewer than one while it has any, and none when it is
/// empty.
pub open spec fn clamped_workers(entry_count: nat, workers: nat) -> nat {
    if entry_count == 0 {
        0
    } else if workers == 0 {
        1
    } else if workers > entry_count {
        entry_count
    } else {
        workers
    }
}

/// Cuts `entry_count` entries into contiguous partitions, one per
/// effective worker: each of the first `w - 1` partitions holds
/// `entry_count / w` entries and the final partition absorbs the
/// remainder, so it is never smaller than the others. Together the
/// partitions cover `0..entry_count` exactly once, in order.
pub fn partition_bounds(entry_count: usize, workers: usize) -> (r: Vec<(usize, usize)>)
    ensures
        r@.len() == clamped_workers(entry_count as nat, workers as nat),
        forall|k: int| 0 <= k < r@.len() ==> (#[trigger] r@[k]).0 <= r@[k].1 <= entry_count,
        r@.len() > 0 ==> r@[0].0 == 0 && r@[r@.len() - 1].1 == entry_count,
        forall|k: int| 0 <= k < r@.len() - 1 ==> (#[trigger] r@[k]).1 == r@[k + 1].0,
        forall|k: int|
            0 <= k < r@.len() - 1 ==> (#[trigger] r@[k]).1 - r@[k].0 == entry_count as int
                / r@.len() as int,
        r@.len() > 0 ==> r@[r@.len() - 1].1 - r@[r@.len() - 1].0 == entry_count as int
            / r@.len() as int + entry_count as int % r@.len() as int,
{
    let mut r: Vec<(usize, usize)> = Vec::new();
    if entry_count == 0 {
        return r;
    }
    let w: usize = if workers == 0 {
        1
    } else if workers > entry_count {
        entry_count
    } else {
        workers
    };
    let q: usize = entry_count / w;
    proof {
        vstd::arithmetic::div_mod::lemma_fundamental_div_mod(entry_count as int, w as int);
    }
    let mut k: usize = 0;
    let mut start: usize = 0;
    while k < w - 1
        invariant
            1 <= w <= entry_count,
            q == entry_count as int / w as int,
            0 <= k <= w - 1,
            start == k * q,
            r@.len() == k,
            forall|j: int| 0 <= j < k ==> (#[trigger] r@[j]).0 == j * q && r@[j].1 == (j + 1) * q,
        decreases w - 1 - k,
    {
        proof {
            vstd::arithmetic::div_mod::lemma_fundamental_div_mod(entry_count as int, w as int);
            vstd::arithmetic::mul::lemma_mul_inequality(k as int + 1, w as int, q as int);
            assert((k + 1) * q == k * q + q) by (nonlinear_arith);
        }
        r.push((start, start + q));
        start = start + q;
        k = k + 1;
    }
    proof {
        vstd::arithmetic::div_mod::lemma_fundamental_div_mod(entry_count as int, w as int);
        vstd::arithmetic::mul::lemma_mul_inequality(w as int - 1, w as int, q as int);
    }
    r.push((start, entry_count));
    proof {
        assert forall|k: int|
            0 <= k < r@.len() - 1 implies (#[trigger] r@[k]).1 - r@[k].0 == q as int by {
            assert((k + 1) * q == k * q + q) by (nonlinear_arith);
        }
        assert(forall|k: int| 0 <= k < r@.len() - 1 ==> (#[trigger] r@[k]).1 == r@[k + 1].0)
            by {
            assert(forall|k: int|
                0 <= k < r@.len() - 1 ==> (#[trigger] r@[k]).1 == (k + 1) * q && (k + 1 < r@.len()
                    - 1 ==> r@[k + 1].0 == (k + 1) * q));
        }
        assert(r@[r@.len() - 1].1 - r@[r@.len() - 1].0 == entry_count as int / r@.len() as int
            + entry_count as int % r@.len() as int) by {
            vstd::arithmetic::div_mod::lemma_fundamental_div_mod(entry_count as int, w as int);
            assert((w - 1) as int * q as int == w as int * q as int - q as int) by (
            nonlinear_arith);
        }
        assert(forall|k: int| 0 <= k < r@.len() ==> (#[trigger] r@[k]).0 <= r@[k].1 <= entry_count)
            by {
            vstd::arithmetic::div_mod::lemma_fundamental_div_mod(entry_count as int, w as int);
            assert forall|k: int|
                0 <= k < r@.len() implies (#[trigger] r@[k]).0 <= r@[k].1 <= entry_count by {
                if k < r@.len() - 1 {
                    vstd::arithmetic::mul::lemma_mul_inequality(k + 1, w as int, q as int);
                    assert((k + 1) * q == k * q + q) by (nonlinear_arith);
                }
            }
        }
    }
    r
}

/// Reconciles one list the way the worker pool does: cut into
/// partitions, reconcile each partition as its own run, and join the
/// partitions' results in partition order. The join equals reconciling
/// the whole list in order — the partitioning changes only who does
/// the work.
#[verifier::loop_isolation(false)]
#[verifier::rlimit(50)]
pub fn get_mangas_from_list(entries: &[MediaList], lookups: &[EntryLookup], workers: usize) -> (r:
    Vec<UnreadManga>)
    requires
        entries@.len() == lookups@.len(),
    ensures
        result_views(r@) == filter_spec(entries@, lookups@),
{
    let bounds = partition_bounds(entries.len(), workers);
    let mut r: Vec<UnreadManga> = Vec::new();
    let mut k: usize = 0;
    proof {
        assert(result_views(r@) =~= filter_spec(
            entries@.subrange(0, 0),
            lookups@.subrange(0, 0),
        ));
    }
    while k < bounds.len()
        invariant
            0 <= k <= bounds@.len(),
            k == 0 ==> result_views(r@) == filter_spec(
                entries@.subrange(0, 0),
                lookups@.subrange(0, 0),
            ),
            k > 0 ==> result_views(r@) == filter_spec(
                entries@.subrange(0, bounds@[k - 1].1 as int),
                lookups@.subrange(0, bounds@[k - 1].1 as int),
            ),
        decreases bounds@.len() - k,
    {
        let start = bounds[k].0;
        let end = bounds[k].1;
        let mut part = filter_entries(
            vstd::slice::slice_subrange(entries, start, end),
            vstd::slice::slice_subrange(lookups, start, end),
        );
        let ghost before = r@;
        let ghost part_snap = part@;
        r.append(&mut part);
        proof {
            if k > 0 {
                assert(bounds@[k as int - 1].1 == bounds@[k as int].0);
            }
            assert(entries@.subrange(0, start as int) + entries@.subrange(
                start as int,
                end as int,
            ) =~= entries@.subrange(0, end as int));
            assert(lookups@.subrange(0, start as int) + lookups@.subrange(
                start as int,
                end as int,
            ) =~= lookups@.subrange(0, end as int));
            lemma_filter_spec_concat(
                entries@.subrange(0, start as int),
                lookups@.subrange(0, start as int),
                entries@.subrange(start as int, end as int),
                lookups@.subrange(start as int, end as int),
            );
            assert(result_views(r@) =~= result_views(before) + result_views(part_snap));
        }
        k = k + 1;
    }
    proof {
        assert(entries@.subrange(0, entries@.len() as int) =~= entries@);
        assert(lookups@.subrange(0, lookups@.len() as int) =~= lookups@);
    }
    r
}

/// The result of reconciling every list in order: each list's result,
/// concatenated in list order.
pub open spec fn lists_spec(lists: Seq<MediaEntries>, lookups: Seq<Vec<EntryLookup>>) -> Seq<
    UnreadView,
>
    decreases lists.len(),
{
    if lists.len() == 0 {
        Seq::empty()
    } else {
        lists_spec(lists.drop_last(), lookups.drop_last()) + filter_spec(
            lists.last().entries@,
            lookups.last()@,
        )
    }
}

/// Reconciles a user's reading lists against their catalog lookups,
/// list by list, each list partitioned across `workers` workers, and
/// concatenates the per-list results in list order.
#[verifier::loop_isolation(false)]
pub fn filter_unread_manga(
    lists: &Vec<MediaEntries>,
    lookups: &Vec<Vec<EntryLookup>>,
    workers: usize,
) -> (r: Vec<UnreadManga>)
    requires
        lists@.len() == lookups@.len(),
        forall|i: int|
            0 <= i < lists@.len() ==> (#[trigger] lists@[i]).entries@.len() == lookups@[i]@.len(),
    ensures
        result_views(r@) == lists_spec(lists@, lookups@),
{
    let mut r: Vec<UnreadManga> = Vec::new();
    let mut i: usize = 0;
    proof {
        assert(result_views(r@) =~= lists_spec(
            lists@.subrange(0, 0),
            lookups@.subrange(0, 0),
        ));
    }
    while i < lists.len()
        invariant
            0 <= i <= lists@.len(),
            result_views(r@) == lists_spec(
                lists@.subrange(0, i as int),
                lookups@.subrange(0, i as int),
            ),
        decreases lists@.len() - i,
    {
        let mut part = get_mangas_from_list(
            lists[i].entries.as_slice(),
            lookups[i].as_slice(),
            workers,
        );
        let ghost before = r@;
        let ghost part_snap = part@;
        r.append(&mut part);
        proof {
            assert(lists@.subrange(0, i + 1).drop_last() =~= lists@.subrange(0, i as int));
            assert(lookups@.subrange(0, i + 1).drop_last() =~= lookups@.subrange(0, i as int));
            assert(result_views(r@) =~= result_views(before) + result_views(part_snap));
        }
        i = i + 1;
    }
    proof {
        assert(lists@.subrange(0, lists@.len() as int) =~= lists@);
        assert(lookups@.subrange(0, lookups@.len() as int) =~= lookups@);
    }
    r
}

} // verus!
