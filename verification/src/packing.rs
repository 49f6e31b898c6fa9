//! The layout packer: groups one section's ordered images into page
//! templates.
//!
//! The algorithm works in three passes over the section's image sequence:
//! pairing of landscape images, dedicated pages for requested solo
//! portraits, and a run-flush state machine over the remaining images.
//! Pages are then ordered by a per-page sort key.  The whole algorithm has
//! a functional specification ([`spec_pack`]); the executable packer is
//! proved to return exactly that, which also makes it deterministic.

use vstd::prelude::*;
use crate::{opt_string_view, ImageInfo, LayoutReq, PageInfo, PageKind, PageModel};

verus! {

/// A page is classified landscape when its rotated width is at least its
/// rotated height; squares count as landscape.
pub open spec fn spec_is_landscape(im: ImageInfo) -> bool {
    im.rotated_dims.0 >= im.rotated_dims.1
}

/// The image is portrait and asks for a page of its own.
pub open spec fn spec_is_solo(im: ImageInfo) -> bool {
    !spec_is_landscape(im) && im.user_req == LayoutReq::OnePortrait
}

/// The indices `i < k` satisfying `p`, in increasing order.
pub open spec fn indices_where(p: spec_fn(int) -> bool, k: int) -> Seq<int>
    decreases k,
{
    if k <= 0 {
        Seq::empty()
    } else if p(k - 1) {
        indices_where(p, k - 1).push(k - 1)
    } else {
        indices_where(p, k - 1)
    }
}

/// Holds at positions of landscape-or-square images.
pub open spec fn landscape_at(s: Seq<ImageInfo>) -> spec_fn(int) -> bool {
    |i: int| spec_is_landscape(s[i])
}

/// Holds at positions of requested solo portraits.
pub open spec fn solo_at(s: Seq<ImageInfo>) -> spec_fn(int) -> bool {
    |i: int| spec_is_solo(s[i])
}

/// Positions before `k` of landscape-or-square images, in order.
pub open spec fn landscape_indices(s: Seq<ImageInfo>, k: int) -> Seq<int> {
    indices_where(landscape_at(s), k)
}

/// Positions before `k` of requested solo portraits, in order.
pub open spec fn solo_indices(s: Seq<ImageInfo>, k: int) -> Seq<int> {
    indices_where(solo_at(s), k)
}

/// How many landscape images the pairing pass consumes: all of them, less
/// an unpaired trailing one.
pub open spec fn num_paired(s: Seq<ImageInfo>) -> int {
    let l = landscape_indices(s, s.len() as int).len() as int;
    l - l % 2
}

/// The image at position `i` is consumed by pairing (a landscape whose
/// rank among landscapes is below the paired count) or by a solo request.
pub open spec fn consumed_early(s: Seq<ImageInfo>, i: int) -> bool {
    if spec_is_landscape(s[i]) {
        landscape_indices(s, i).len() < num_paired(s)
    } else {
        spec_is_solo(s[i])
    }
}

/// Holds at positions left over for the run-flush pass.
pub open spec fn remaining_at(s: Seq<ImageInfo>) -> spec_fn(int) -> bool {
    |i: int| !consumed_early(s, i)
}

/// Positions before `k` not consumed by pairing or solo requests.
pub open spec fn missing_indices(s: Seq<ImageInfo>, k: int) -> Seq<int> {
    indices_where(remaining_at(s), k)
}

/// Basic shape of an `indices_where` listing: it lists exactly the
/// positions below `k` satisfying `p`, in strictly increasing order.
pub proof fn lemma_indices_where_props(p: spec_fn(int) -> bool, k: int)
    requires
        k >= 0,
    ensures
        indices_where(p, k).len() <= k,
        forall|t: int|
            0 <= t < indices_where(p, k).len() ==> 0 <= #[trigger] indices_where(p, k)[t] < k,
        forall|t: int|
            0 <= t < indices_where(p, k).len() ==> p(#[trigger] indices_where(p, k)[t]),
        forall|t1: int, t2: int|
            0 <= t1 < t2 < indices_where(p, k).len() ==> #[trigger] indices_where(p, k)[t1]
                < #[trigger] indices_where(p, k)[t2],
        forall|i: int|
            0 <= i < k && #[trigger] p(i) ==> exists|t: int|
                0 <= t < indices_where(p, k).len() && #[trigger] indices_where(p, k)[t] == i,
    decreases k,
{
    if k > 0 {
        lemma_indices_where_props(p, k - 1);
        assert forall|i: int| 0 <= i < k && #[trigger] p(i) implies exists|t: int|
            0 <= t < indices_where(p, k).len() && #[trigger] indices_where(p, k)[t] == i by {
            if i < k - 1 {
                let t = choose|t: int|
                    0 <= t < indices_where(p, k - 1).len() && #[trigger] indices_where(p, k - 1)[t]
                        == i;
                assert(indices_where(p, k)[t] == i);
            } else {
                assert(indices_where(p, k)[indices_where(p, k).len() - 1] == i);
            }
        }
    }
}

/// Counting the three listings: paired landscapes, solos and the rest
/// partition the positions below `k`.
pub proof fn lemma_listing_counts(s: Seq<ImageInfo>, k: int)
    requires
        0 <= k <= s.len(),
    ensures
        landscape_indices(s, k).len() + solo_indices(s, k).len() <= k,
        missing_indices(s, k).len() == k - (if landscape_indices(s, k).len() < num_paired(s) {
            landscape_indices(s, k).len() as int
        } else {
            num_paired(s)
        }) - solo_indices(s, k).len(),
    decreases k,
{
    lemma_num_paired_bounds(s);
    if k > 0 {
        lemma_listing_counts(s, k - 1);
        lemma_indices_where_props(landscape_at(s), k - 1);
        if spec_is_landscape(s[k - 1]) {
            assert(!spec_is_solo(s[k - 1]));
            assert(consumed_early(s, k - 1) == (landscape_indices(s, k - 1).len() < num_paired(
                s,
            )));
        }
    }
}

/// The paired count is even, non-negative, and at most the landscape count.
pub proof fn lemma_num_paired_bounds(s: Seq<ImageInfo>)
    ensures
        num_paired(s) % 2 == 0,
        0 <= num_paired(s) <= landscape_indices(s, s.len() as int).len(),
{
}

/// A page together with the key the final ordering pass sorts by.
#[verifier::ext_equal]
pub ghost struct KeyedPage {
    pub key: int,
    pub page: PageModel,
}

/// The ordering key of a page: pairing-pass and solo-pass pages sort by
/// the position of their first image, run-flush pages by the position of
/// the last image of their run.
pub open spec fn page_sort_key(first: int, last: int, from_run_flush: bool) -> int {
    if from_run_flush {
        last
    } else {
        first
    }
}

/// The pairing pass: consecutive elements of the landscape listing, two by
/// two, each pair a two-landscapes page; a trailing odd landscape is left
/// for the run-flush pass.
pub open spec fn pair_pages(li: Seq<int>, section: int, id: int) -> Seq<KeyedPage>
    decreases li.len(),
{
    if li.len() < 2 {
        Seq::empty()
    } else {
        seq![
            KeyedPage {
                key: page_sort_key(li[0], li[1], false),
                page: PageModel {
                    sequence_index: id,
                    section,
                    kind: PageKind::TwoLandscapes,
                    images: seq![li[0], li[1]],
                    title: None,
                },
            },
        ] + pair_pages(li.skip(2), section, id + 1)
    }
}

/// The solo pass: one one-portrait page per requested solo portrait.
pub open spec fn solo_pages(si: Seq<int>, section: int, id: int) -> Seq<KeyedPage>
    decreases si.len(),
{
    if si.len() == 0 {
        Seq::empty()
    } else {
        seq![
            KeyedPage {
                key: page_sort_key(si[0], si[0], false),
                page: PageModel {
                    sequence_index: id,
                    section,
                    kind: PageKind::OnePortrait,
                    images: seq![si[0]],
                    title: None,
                },
            },
        ] + solo_pages(si.skip(1), section, id + 1)
    }
}

/// How many of the images at positions `m[from..to]` are landscape.
pub open spec fn run_landscapes(s: Seq<ImageInfo>, m: Seq<int>, from: int, to: int) -> int
    decreases to - from,
{
    if from >= to {
        0
    } else {
        run_landscapes(s, m, from, to - 1) + if spec_is_landscape(s[m[to - 1]]) {
            1int
        } else {
            0int
        }
    }
}

/// Slot order of a two-portraits-one-landscape page built from the images
/// at positions `a`, `b`, `c` (in original order): the first
/// landscape-or-square of the three takes the dedicated landscape slot,
/// which is the last one; the other two keep their relative order.  When
/// none is landscape the original order stands.
pub open spec fn trio_slots(s: Seq<ImageInfo>, a: int, b: int, c: int) -> Seq<int> {
    if spec_is_landscape(s[a]) {
        seq![b, c, a]
    } else if spec_is_landscape(s[b]) {
        seq![a, c, b]
    } else {
        seq![a, b, c]
    }
}

/// The run-flush pass, from the state where `m[start..j]` is the run
/// accumulated so far and `m[j]` is the image now appended to it.
///
/// After appending, the first matching rule fires, highest priority first:
/// a run of 3 with exactly one landscape becomes a
/// two-portraits-one-landscape page; a run of 4 becomes a four-portraits
/// page whatever its mix; and at the last image of the section a run of 1,
/// 2 or 3 is flushed to the template of its size.  Otherwise the run keeps
/// accumulating.
pub open spec fn flush_pages(
    s: Seq<ImageInfo>,
    m: Seq<int>,
    start: int,
    j: int,
    section: int,
    id: int,
) -> Seq<KeyedPage>
    decreases m.len() - j,
{
    if !(0 <= start <= j && j < m.len()) {
        Seq::empty()
    } else {
        let len = j - start + 1;
        let lc = run_landscapes(s, m, start, j + 1);
        let last = j == m.len() - 1;
        if len == 3 && lc == 1 {
            seq![flush_trio(s, m, start, j, section, id)] + flush_pages(
                s,
                m,
                j + 1,
                j + 1,
                section,
                id + 1,
            )
        } else if len == 4 {
            seq![
                KeyedPage {
                    key: page_sort_key(m[start], m[j], true),
                    page: PageModel {
                        sequence_index: id,
                        section,
                        kind: PageKind::FourPortraits,
                        images: seq![m[start], m[start + 1], m[start + 2], m[j]],
                        title: None,
                    },
                },
            ] + flush_pages(s, m, j + 1, j + 1, section, id + 1)
        } else if last && len == 1 {
            seq![
                KeyedPage {
                    key: page_sort_key(m[j], m[j], true),
                    page: PageModel {
                        sequence_index: id,
                        section,
                        kind: PageKind::OnePortrait,
                        images: seq![m[j]],
                        title: None,
                    },
                },
            ]
        } else if last && len == 2 {
            seq![
                KeyedPage {
                    key: page_sort_key(m[start], m[j], true),
                    page: PageModel {
                        sequence_index: id,
                        section,
                        kind: PageKind::TwoLandscapes,
                        images: seq![m[start], m[j]],
                        title: None,
                    },
                },
            ]
        } else if last && len == 3 {
            seq![flush_trio(s, m, start, j, section, id)]
        } else if last {
            Seq::empty()
        } else {
            flush_pages(s, m, start, j + 1, section, id)
        }
    }
}

/// The two-portraits-one-landscape page flushed from the run `m[start..=j]`.
pub open spec fn flush_trio(
    s: Seq<ImageInfo>,
    m: Seq<int>,
    start: int,
    j: int,
    section: int,
    id: int,
) -> KeyedPage {
    KeyedPage {
        key: page_sort_key(m[start], m[j], true),
        page: PageModel {
            sequence_index: id,
            section,
            kind: PageKind::TwoPortraitsOneLandscape,
            images: trio_slots(s, m[start], m[start + 1], m[j]),
            title: None,
        },
    }
}

/// Merge of two key-sorted page sequences; on equal keys the left one
/// comes first.
pub open spec fn merge_pages(a: Seq<KeyedPage>, b: Seq<KeyedPage>) -> Seq<KeyedPage>
    decreases a.len() + b.len(),
{
    if a.len() == 0 {
        b
    } else if b.len() == 0 {
        a
    } else if a[0].key <= b[0].key {
        seq![a[0]] + merge_pages(a.skip(1), b)
    } else {
        seq![b[0]] + merge_pages(a, b.skip(1))
    }
}

/// Drops the sort keys.
pub open spec fn strip_keys(ps: Seq<KeyedPage>) -> Seq<PageModel> {
    ps.map_values(|kp: KeyedPage| kp.page)
}

/// Attaches the section title to the first page in final order, if there
/// is one; every other page carries no title.
pub open spec fn attach_title(ps: Seq<PageModel>, title: Option<Seq<char>>) -> Seq<PageModel> {
    if ps.len() > 0 && title is Some {
        ps.update(0, PageModel { title, ..ps[0] })
    } else {
        ps
    }
}

/// What the packer returns for one section: the pages of the three passes,
/// numbered in construction order, merged in ascending key order, with the
/// section title on the first page.
pub open spec fn spec_pack(
    s: Seq<ImageInfo>,
    section: int,
    first_id: int,
    title: Option<Seq<char>>,
) -> Seq<PageModel> {
    let li = landscape_indices(s, s.len() as int);
    let si = solo_indices(s, s.len() as int);
    let m = missing_indices(s, s.len() as int);
    let p1 = pair_pages(li, section, first_id);
    let p2 = solo_pages(si, section, first_id + p1.len());
    let p3 = flush_pages(s, m, 0, 0, section, first_id + p1.len() + p2.len());
    attach_title(strip_keys(merge_pages(merge_pages(p1, p2), p3)), title)
}

/// Number of occurrences of `x` in `s`.
pub open spec fn seq_count(s: Seq<int>, x: int) -> int
    decreases s.len(),
{
    if s.len() == 0 {
        0
    } else {
        (if s[0] == x {
            1int
        } else {
            0int
        }) + seq_count(s.skip(1), x)
    }
}

/// Number of times image position `x` occurs over the keyed pages.
pub open spec fn pages_count(ps: Seq<KeyedPage>, x: int) -> int
    decreases ps.len(),
{
    if ps.len() == 0 {
        0
    } else {
        seq_count(ps[0].page.images, x) + pages_count(ps.skip(1), x)
    }
}

/// Number of times image position `x` occurs over the final pages.
pub open spec fn models_count(ps: Seq<PageModel>, x: int) -> int
    decreases ps.len(),
{
    if ps.len() == 0 {
        0
    } else {
        seq_count(ps[0].images, x) + models_count(ps.skip(1), x)
    }
}

proof fn lemma_seq_count_concat(a: Seq<int>, b: Seq<int>, x: int)
    ensures
        seq_count(a + b, x) == seq_count(a, x) + seq_count(b, x),
    decreases a.len(),
{
    if a.len() == 0 {
        assert(a + b =~= b);
    } else {
        assert((a + b).skip(1) =~= a.skip(1) + b);
        lemma_seq_count_concat(a.skip(1), b, x);
    }
}

proof fn lemma_seq_count1(v: int, x: int)
    ensures
        seq_count(seq![v], x) == (if v == x {
            1int
        } else {
            0int
        }),
{
    assert(seq![v].skip(1) =~= Seq::<int>::empty());
    assert(seq_count(Seq::<int>::empty(), x) == 0);
}

proof fn lemma_seq_count2(a: int, b: int, x: int)
    ensures
        seq_count(seq![a, b], x) == (if a == x {
            1int
        } else {
            0int
        }) + (if b == x {
            1int
        } else {
            0int
        }),
{
    assert(seq![a, b] =~= seq![a] + seq![b]);
    lemma_seq_count_concat(seq![a], seq![b], x);
    lemma_seq_count1(a, x);
    lemma_seq_count1(b, x);
}

proof fn lemma_seq_count3(a: int, b: int, c: int, x: int)
    ensures
        seq_count(seq![a, b, c], x) == (if a == x {
            1int
        } else {
            0int
        }) + (if b == x {
            1int
        } else {
            0int
        }) + (if c == x {
            1int
        } else {
            0int
        }),
{
    assert(seq![a, b, c] =~= seq![a, b] + seq![c]);
    lemma_seq_count_concat(seq![a, b], seq![c], x);
    lemma_seq_count2(a, b, x);
    lemma_seq_count1(c, x);
}

proof fn lemma_seq_count4(a: int, b: int, c: int, d: int, x: int)
    ensures
        seq_count(seq![a, b, c, d], x) == (if a == x {
            1int
        } else {
            0int
        }) + (if b == x {
            1int
        } else {
            0int
        }) + (if c == x {
            1int
        } else {
            0int
        }) + (if d == x {
            1int
        } else {
            0int
        }),
{
    assert(seq![a, b, c, d] =~= seq![a, b, c] + seq![d]);
    lemma_seq_count_concat(seq![a, b, c], seq![d], x);
    lemma_seq_count3(a, b, c, x);
    lemma_seq_count1(d, x);
}

proof fn lemma_pages_count_concat(a: Seq<KeyedPage>, b: Seq<KeyedPage>, x: int)
    ensures
        pages_count(a + b, x) == pages_count(a, x) + pages_count(b, x),
    decreases a.len(),
{
    if a.len() == 0 {
        assert(a + b =~= b);
    } else {
        assert((a + b).skip(1) =~= a.skip(1) + b);
        lemma_pages_count_concat(a.skip(1), b, x);
    }
}

proof fn lemma_pages_count1(kp: KeyedPage, x: int)
    ensures
        pages_count(seq![kp], x) == seq_count(kp.page.images, x),
{
    assert(seq![kp].skip(1) =~= Seq::<KeyedPage>::empty());
    assert(pages_count(Seq::<KeyedPage>::empty(), x) == 0);
}

/// Merging reorders pages, so it keeps every occurrence count.
proof fn lemma_merge_count(a: Seq<KeyedPage>, b: Seq<KeyedPage>, x: int)
    ensures
        pages_count(merge_pages(a, b), x) == pages_count(a, x) + pages_count(b, x),
    decreases a.len() + b.len(),
{
    if a.len() == 0 || b.len() == 0 {
    } else if a[0].key <= b[0].key {
        lemma_merge_count(a.skip(1), b, x);
        lemma_pages_count_concat(seq![a[0]], merge_pages(a.skip(1), b), x);
        lemma_pages_count1(a[0], x);
    } else {
        lemma_merge_count(a, b.skip(1), x);
        lemma_pages_count_concat(seq![b[0]], merge_pages(a, b.skip(1)), x);
        lemma_pages_count1(b[0], x);
    }
}

proof fn lemma_strip_count(ps: Seq<KeyedPage>, x: int)
    ensures
        models_count(strip_keys(ps), x) == pages_count(ps, x),
    decreases ps.len(),
{
    if ps.len() > 0 {
        assert(strip_keys(ps).skip(1) =~= strip_keys(ps.skip(1)));
        lemma_strip_count(ps.skip(1), x);
    }
}

/// Attaching the title changes no page's images, so it keeps every count.
proof fn lemma_final_count(ps: Seq<KeyedPage>, title: Option<Seq<char>>, x: int)
    ensures
        models_count(attach_title(strip_keys(ps), title), x) == pages_count(ps, x),
{
    lemma_strip_count(ps, x);
    let stripped = strip_keys(ps);
    if stripped.len() > 0 && title is Some {
        let updated = attach_title(stripped, title);
        assert(updated[0].images == stripped[0].images);
        assert(updated.skip(1) =~= stripped.skip(1));
    }
}

/// The pairing pass uses exactly the even prefix of the landscape listing.
proof fn lemma_pair_pages_count(li: Seq<int>, section: int, id: int, x: int)
    ensures
        pages_count(pair_pages(li, section, id), x) == seq_count(
            li.take(2 * (li.len() as int / 2)),
            x,
        ),
    decreases li.len(),
{
    if li.len() < 2 {
        assert(li.take(2 * (li.len() as int / 2)) =~= Seq::<int>::empty());
    } else {
        lemma_pair_pages_count(li.skip(2), section, id + 1, x);
        let kp = pair_pages(li, section, id)[0];
        lemma_pages_count_concat(seq![kp], pair_pages(li.skip(2), section, id + 1), x);
        lemma_pages_count1(kp, x);
        lemma_seq_count2(li[0], li[1], x);
        assert(li.skip(2).take(2 * (li.skip(2).len() as int / 2)) =~= li.skip(2).take(
            2 * (li.len() as int / 2) - 2,
        ));
        assert(li.take(2 * (li.len() as int / 2)) =~= seq![li[0], li[1]] + li.skip(2).take(
            2 * (li.len() as int / 2) - 2,
        ));
        lemma_seq_count_concat(
            seq![li[0], li[1]],
            li.skip(2).take(2 * (li.len() as int / 2) - 2),
            x,
        );
    }
}

/// The solo pass uses exactly the solo listing.
proof fn lemma_solo_pages_count(si: Seq<int>, section: int, id: int, x: int)
    ensures
        pages_count(solo_pages(si, section, id), x) == seq_count(si, x),
    decreases si.len(),
{
    if si.len() > 0 {
        lemma_solo_pages_count(si.skip(1), section, id + 1, x);
        let kp = solo_pages(si, section, id)[0];
        lemma_pages_count_concat(seq![kp], solo_pages(si.skip(1), section, id + 1), x);
        lemma_pages_count1(kp, x);
        lemma_seq_count1(si[0], x);
        assert(si =~= seq![si[0]] + si.skip(1));
        lemma_seq_count_concat(seq![si[0]], si.skip(1), x);
    }
}

/// Slot assignment permutes the three run images, so it keeps counts.
proof fn lemma_trio_count(s: Seq<ImageInfo>, a: int, b: int, c: int, x: int)
    ensures
        seq_count(trio_slots(s, a, b, c), x) == seq_count(seq![a, b, c], x),
{
    lemma_seq_count3(a, b, c, x);
    if spec_is_landscape(s[a]) {
        lemma_seq_count3(b, c, a, x);
    } else if spec_is_landscape(s[b]) {
        lemma_seq_count3(a, c, b, x);
    }
}

/// The run-flush pass uses exactly the images left over from `start` on.
proof fn lemma_flush_pages_count(
    s: Seq<ImageInfo>,
    m: Seq<int>,
    start: int,
    j: int,
    section: int,
    id: int,
    x: int,
)
    requires
        0 <= start <= j < m.len(),
        j - start <= 3,
    ensures
        pages_count(flush_pages(s, m, start, j, section, id), x) == seq_count(m.skip(start), x),
    decreases m.len() - j,
{
    let len = j - start + 1;
    let lc = run_landscapes(s, m, start, j + 1);
    let last = j == m.len() - 1;
    let pages = flush_pages(s, m, start, j, section, id);
    if len == 3 && lc == 1 {
        let kp = flush_trio(s, m, start, j, section, id);
        lemma_pages_count_concat(seq![kp], flush_pages(s, m, j + 1, j + 1, section, id + 1), x);
        lemma_pages_count1(kp, x);
        lemma_trio_count(s, m[start], m[start + 1], m[j], x);
        lemma_seq_count3(m[start], m[start + 1], m[j], x);
        if last {
            assert(flush_pages(s, m, j + 1, j + 1, section, id + 1) == Seq::<KeyedPage>::empty());
            assert(m.skip(start) =~= seq![m[start], m[start + 1], m[j]]);
        } else {
            lemma_flush_pages_count(s, m, j + 1, j + 1, section, id + 1, x);
            assert(m.skip(start) =~= seq![m[start], m[start + 1], m[j]] + m.skip(j + 1));
            lemma_seq_count_concat(seq![m[start], m[start + 1], m[j]], m.skip(j + 1), x);
        }
    } else if len == 4 {
        let kp = pages[0];
        lemma_pages_count_concat(seq![kp], flush_pages(s, m, j + 1, j + 1, section, id + 1), x);
        lemma_pages_count1(kp, x);
        lemma_seq_count4(m[start], m[start + 1], m[start + 2], m[j], x);
        if last {
            assert(flush_pages(s, m, j + 1, j + 1, section, id + 1) == Seq::<KeyedPage>::empty());
            assert(m.skip(start) =~= seq![m[start], m[start + 1], m[start + 2], m[j]]);
        } else {
            lemma_flush_pages_count(s, m, j + 1, j + 1, section, id + 1, x);
            assert(m.skip(start) =~= seq![m[start], m[start + 1], m[start + 2], m[j]] + m.skip(
                j + 1,
            ));
            lemma_seq_count_concat(
                seq![m[start], m[start + 1], m[start + 2], m[j]],
                m.skip(j + 1),
                x,
            );
        }
    } else if last && len == 1 {
        let kp = pages[0];
        assert(pages =~= seq![kp]);
        lemma_pages_count1(kp, x);
        lemma_seq_count1(m[j], x);
        assert(m.skip(start) =~= seq![m[j]]);
    } else if last && len == 2 {
        let kp = pages[0];
        assert(pages =~= seq![kp]);
        lemma_pages_count1(kp, x);
        lemma_seq_count2(m[start], m[j], x);
        assert(m.skip(start) =~= seq![m[start], m[j]]);
    } else if last && len == 3 {
        let kp = flush_trio(s, m, start, j, section, id);
        assert(pages =~= seq![kp]);
        lemma_pages_count1(kp, x);
        lemma_trio_count(s, m[start], m[start + 1], m[j], x);
        lemma_seq_count3(m[start], m[start + 1], m[j], x);
        assert(m.skip(start) =~= seq![m[start], m[start + 1], m[j]]);
    } else {
        assert(!last);
        lemma_flush_pages_count(s, m, start, j + 1, section, id, x);
    }
}

/// A strictly increasing sequence holds each value at most once.
proof fn lemma_increasing_count(q: Seq<int>, x: int)
    requires
        forall|t1: int, t2: int| 0 <= t1 < t2 < q.len() ==> #[trigger] q[t1] < #[trigger] q[t2],
    ensures
        seq_count(q, x) == (if exists|t: int| 0 <= t < q.len() && #[trigger] q[t] == x {
            1int
        } else {
            0int
        }),
    decreases q.len(),
{
    if q.len() > 0 {
        let rest = q.skip(1);
        assert(forall|t1: int, t2: int|
            0 <= t1 < t2 < rest.len() ==> #[trigger] rest[t1] < #[trigger] rest[t2]) by {
            assert(forall|t: int| 0 <= t < rest.len() ==> #[trigger] rest[t] == q[t + 1]);
        }
        lemma_increasing_count(rest, x);
        if q[0] == x {
            assert(forall|t: int| 0 <= t < rest.len() ==> #[trigger] rest[t] == q[t + 1] && q[0]
                < q[t + 1]);
            assert(!exists|t: int| 0 <= t < rest.len() && #[trigger] rest[t] == x);
            assert(q[0] == x);
        } else {
            if exists|t: int| 0 <= t < q.len() && #[trigger] q[t] == x {
                let t = choose|t: int| 0 <= t < q.len() && #[trigger] q[t] == x;
                assert(t >= 1);
                assert(rest[t - 1] == x);
            }
            if exists|t: int| 0 <= t < rest.len() && #[trigger] rest[t] == x {
                let t = choose|t: int| 0 <= t < rest.len() && #[trigger] rest[t] == x;
                assert(q[t + 1] == x);
            }
        }
    }
}

/// Packing is deterministic: it is specified as a function of the input
/// sequence alone, so two packings of the same section agree exactly.
pub proof fn lemma_pack_deterministic(
    s: Seq<ImageInfo>,
    section: int,
    first_id: int,
    title: Option<Seq<char>>,
    r1: Seq<PageModel>,
    r2: Seq<PageModel>,
)
    requires
        r1 == spec_pack(s, section, first_id, title),
        r2 == spec_pack(s, section, first_id, title),
    ensures
        r1 == r2,
{
}

/// Conservation: every image of the section appears in exactly one page
/// of the packed result, and the pages reference nothing else.
pub proof fn lemma_pack_conservation(
    s: Seq<ImageInfo>,
    section: int,
    first_id: int,
    title: Option<Seq<char>>,
)
    ensures
        forall|x: int|
            0 <= x < s.len() ==> #[trigger] models_count(
                spec_pack(s, section, first_id, title),
                x,
            ) == 1,
        forall|x: int|
            !(0 <= x < s.len()) ==> #[trigger] models_count(
                spec_pack(s, section, first_id, title),
                x,
            ) == 0,
{
    let n = s.len() as int;
    let li = landscape_indices(s, n);
    let si = solo_indices(s, n);
    let m = missing_indices(s, n);
    let np = num_paired(s);
    let p1 = pair_pages(li, section, first_id);
    let p2 = solo_pages(si, section, first_id + p1.len());
    let p3 = flush_pages(s, m, 0, 0, section, first_id + p1.len() + p2.len());
    let le = li.take(2 * (li.len() as int / 2));
    lemma_indices_where_props(landscape_at(s), n);
    lemma_indices_where_props(solo_at(s), n);
    lemma_indices_where_props(remaining_at(s), n);
    lemma_indices_where_ranks(landscape_at(s), n);
    lemma_num_paired_bounds(s);
    assert(le.len() == np);
    assert forall|x: int| true implies #[trigger] models_count(
        spec_pack(s, section, first_id, title),
        x,
    ) == seq_count(le, x) + seq_count(si, x) + seq_count(m, x) by {
        lemma_final_count(merge_pages(merge_pages(p1, p2), p3), title, x);
        lemma_merge_count(merge_pages(p1, p2), p3, x);
        lemma_merge_count(p1, p2, x);
        lemma_pair_pages_count(li, section, first_id, x);
        lemma_solo_pages_count(si, section, first_id + p1.len() as int, x);
        if m.len() == 0 {
            assert(p3 == Seq::<KeyedPage>::empty());
            assert(m.skip(0) =~= m);
        } else {
            lemma_flush_pages_count(
                s,
                m,
                0,
                0,
                section,
                first_id + p1.len() as int + p2.len() as int,
                x,
            );
            assert(m.skip(0) =~= m);
        }
    }
    assert forall|t1: int, t2: int| 0 <= t1 < t2 < le.len() implies #[trigger] le[t1]
        < #[trigger] le[t2] by {
        assert(le[t1] == li[t1] && le[t2] == li[t2]);
    }
    assert forall|x: int| true implies seq_count(le, x) + seq_count(si, x) + seq_count(m, x) == (
    if 0 <= x < n {
        1int
    } else {
        0int
    }) by {
        lemma_increasing_count(le, x);
        lemma_increasing_count(si, x);
        lemma_increasing_count(m, x);
        if 0 <= x < n {
            let rank = landscape_indices(s, x).len() as int;
            if spec_is_landscape(s[x]) {
                assert(landscape_at(s)(x));
                let t = choose|t: int| 0 <= t < li.len() && #[trigger] li[t] == x;
                assert(landscape_indices(s, li[t]).len() == t);
                assert(t == rank);
                assert(!exists|u: int| 0 <= u < si.len() && #[trigger] si[u] == x) by {
                    if exists|u: int| 0 <= u < si.len() && #[trigger] si[u] == x {
                        let u = choose|u: int| 0 <= u < si.len() && #[trigger] si[u] == x;
                        assert(solo_at(s)(si[u]));
                    }
                }
                if rank < np {
                    assert(consumed_early(s, x));
                    assert(le[rank] == li[rank] && li[rank] == x);
                    assert(seq_count(le, x) == 1);
                    assert(!exists|u: int| 0 <= u < m.len() && #[trigger] m[u] == x) by {
                        if exists|u: int| 0 <= u < m.len() && #[trigger] m[u] == x {
                            let u = choose|u: int| 0 <= u < m.len() && #[trigger] m[u] == x;
                            assert(remaining_at(s)(m[u]));
                        }
                    }
                } else {
                    assert(!consumed_early(s, x));
                    assert(remaining_at(s)(x));
                    assert(!exists|u: int| 0 <= u < le.len() && #[trigger] le[u] == x) by {
                        if exists|u: int| 0 <= u < le.len() && #[trigger] le[u] == x {
                            let u = choose|u: int| 0 <= u < le.len() && #[trigger] le[u] == x;
                            assert(li[u] == x);
                            assert(landscape_indices(s, li[u]).len() == u);
                            assert(u == rank);
                        }
                    }
                }
            } else {
                assert(!exists|u: int| 0 <= u < le.len() && #[trigger] le[u] == x) by {
                    if exists|u: int| 0 <= u < le.len() && #[trigger] le[u] == x {
                        let u = choose|u: int| 0 <= u < le.len() && #[trigger] le[u] == x;
                        assert(li[u] == x);
                        assert(landscape_at(s)(li[u]));
                    }
                }
                if spec_is_solo(s[x]) {
                    assert(solo_at(s)(x));
                    assert(consumed_early(s, x));
                    assert(!exists|u: int| 0 <= u < m.len() && #[trigger] m[u] == x) by {
                        if exists|u: int| 0 <= u < m.len() && #[trigger] m[u] == x {
                            let u = choose|u: int| 0 <= u < m.len() && #[trigger] m[u] == x;
                            assert(remaining_at(s)(m[u]));
                        }
                    }
                } else {
                    assert(!consumed_early(s, x));
                    assert(remaining_at(s)(x));
                    assert(!exists|u: int| 0 <= u < si.len() && #[trigger] si[u] == x) by {
                        if exists|u: int| 0 <= u < si.len() && #[trigger] si[u] == x {
                            let u = choose|u: int| 0 <= u < si.len() && #[trigger] si[u] == x;
                            assert(solo_at(s)(si[u]));
                        }
                    }
                }
            }
        } else {
            assert(!exists|u: int| 0 <= u < le.len() && #[trigger] le[u] == x) by {
                if exists|u: int| 0 <= u < le.len() && #[trigger] le[u] == x {
                    let u = choose|u: int| 0 <= u < le.len() && #[trigger] le[u] == x;
                    assert(li[u] == x);
                }
            }
            assert(!exists|u: int| 0 <= u < si.len() && #[trigger] si[u] == x);
            assert(!exists|u: int| 0 <= u < m.len() && #[trigger] m[u] == x);
        }
    }
}

/// The pages stand in ascending order of their sort keys.
pub open spec fn sorted_by_key(ps: Seq<KeyedPage>) -> bool {
    forall|t1: int, t2: int|
        0 <= t1 < t2 < ps.len() ==> #[trigger] ps[t1].key <= #[trigger] ps[t2].key
}

/// Merging two key-sorted page sequences gives a key-sorted sequence
/// opening with one of the two heads.
proof fn lemma_merge_sorted(a: Seq<KeyedPage>, b: Seq<KeyedPage>)
    requires
        sorted_by_key(a),
        sorted_by_key(b),
    ensures
        sorted_by_key(merge_pages(a, b)),
        merge_pages(a, b).len() == a.len() + b.len(),
        merge_pages(a, b).len() > 0 ==> (a.len() > 0 && merge_pages(a, b)[0] == a[0]) || (b.len()
            > 0 && merge_pages(a, b)[0] == b[0]),
    decreases a.len() + b.len(),
{
    if a.len() == 0 || b.len() == 0 {
    } else if a[0].key <= b[0].key {
        let rest = a.skip(1);
        assert(sorted_by_key(rest)) by {
            assert(forall|t: int| 0 <= t < rest.len() ==> #[trigger] rest[t] == a[t + 1]);
        }
        lemma_merge_sorted(rest, b);
        let m = merge_pages(rest, b);
        let merged = merge_pages(a, b);
        assert(merged == seq![a[0]] + m);
        assert forall|t1: int, t2: int| 0 <= t1 < t2 < merged.len() implies #[trigger] merged[t1].key
            <= #[trigger] merged[t2].key by {
            assert(merged[t2] == m[t2 - 1]);
            if t1 == 0 {
                assert(m[0].key >= a[0].key);
                assert(m[t2 - 1].key >= m[0].key);
            } else {
                assert(merged[t1] == m[t1 - 1]);
            }
        }
    } else {
        let rest = b.skip(1);
        assert(sorted_by_key(rest)) by {
            assert(forall|t: int| 0 <= t < rest.len() ==> #[trigger] rest[t] == b[t + 1]);
        }
        lemma_merge_sorted(a, rest);
        let m = merge_pages(a, rest);
        let merged = merge_pages(a, b);
        assert(merged == seq![b[0]] + m);
        assert forall|t1: int, t2: int| 0 <= t1 < t2 < merged.len() implies #[trigger] merged[t1].key
            <= #[trigger] merged[t2].key by {
            assert(merged[t2] == m[t2 - 1]);
            if t1 == 0 {
                assert(m[0].key >= b[0].key);
                assert(m[t2 - 1].key >= m[0].key);
            } else {
                assert(merged[t1] == m[t1 - 1]);
            }
        }
    }
}

/// The pairing pass emits its pages in ascending key order.
proof fn lemma_pair_pages_sorted(li: Seq<int>, section: int, id: int)
    requires
        forall|t1: int, t2: int| 0 <= t1 < t2 < li.len() ==> #[trigger] li[t1] < #[trigger] li[t2],
    ensures
        sorted_by_key(pair_pages(li, section, id)),
        pair_pages(li, section, id).len() > 0 ==> pair_pages(li, section, id)[0].key == li[0],
    decreases li.len(),
{
    if li.len() >= 2 {
        let rest = li.skip(2);
        assert(forall|t: int| 0 <= t < rest.len() ==> #[trigger] rest[t] == li[t + 2]);
        lemma_pair_pages_sorted(rest, section, id + 1);
        let m = pair_pages(rest, section, id + 1);
        let pages = pair_pages(li, section, id);
        assert forall|t1: int, t2: int| 0 <= t1 < t2 < pages.len() implies #[trigger] pages[t1].key
            <= #[trigger] pages[t2].key by {
            assert(pages[t2] == m[t2 - 1]);
            if t1 == 0 {
                assert(m[0].key == rest[0]);
                assert(m[t2 - 1].key >= m[0].key);
            } else {
                assert(pages[t1] == m[t1 - 1]);
            }
        }
    }
}

/// The solo pass emits its pages in ascending key order.
proof fn lemma_solo_pages_sorted(si: Seq<int>, section: int, id: int)
    requires
        forall|t1: int, t2: int| 0 <= t1 < t2 < si.len() ==> #[trigger] si[t1] < #[trigger] si[t2],
    ensures
        sorted_by_key(solo_pages(si, section, id)),
        solo_pages(si, section, id).len() > 0 ==> solo_pages(si, section, id)[0].key == si[0],
    decreases si.len(),
{
    if si.len() >= 1 {
        let rest = si.skip(1);
        assert(forall|t: int| 0 <= t < rest.len() ==> #[trigger] rest[t] == si[t + 1]);
        lemma_solo_pages_sorted(rest, section, id + 1);
        let m = solo_pages(rest, section, id + 1);
        let pages = solo_pages(si, section, id);
        assert forall|t1: int, t2: int| 0 <= t1 < t2 < pages.len() implies #[trigger] pages[t1].key
            <= #[trigger] pages[t2].key by {
            assert(pages[t2] == m[t2 - 1]);
            if t1 == 0 {
                if m.len() > 0 {
                    assert(m[0].key == rest[0]);
                    assert(m[t2 - 1].key >= m[0].key);
                }
            } else {
                assert(pages[t1] == m[t1 - 1]);
            }
        }
    }
}

/// The run-flush pass emits its pages in ascending key order, starting at
/// or after the position now being appended.
proof fn lemma_flush_pages_sorted(
    s: Seq<ImageInfo>,
    m: Seq<int>,
    start: int,
    j: int,
    section: int,
    id: int,
)
    requires
        forall|t1: int, t2: int| 0 <= t1 < t2 < m.len() ==> #[trigger] m[t1] < #[trigger] m[t2],
        0 <= start <= j < m.len(),
        j - start <= 3,
    ensures
        sorted_by_key(flush_pages(s, m, start, j, section, id)),
        flush_pages(s, m, start, j, section, id).len() > 0 ==> flush_pages(
            s,
            m,
            start,
            j,
            section,
            id,
        )[0].key >= m[j],
    decreases m.len() - j,
{
    let len = j - start + 1;
    let lc = run_landscapes(s, m, start, j + 1);
    let last = j == m.len() - 1;
    let pages = flush_pages(s, m, start, j, section, id);
    if (len == 3 && lc == 1) || len == 4 {
        if last {
            assert(flush_pages(s, m, j + 1, j + 1, section, id + 1) == Seq::<KeyedPage>::empty());
            assert(pages.len() == 1);
        } else {
            lemma_flush_pages_sorted(s, m, j + 1, j + 1, section, id + 1);
            let tail = flush_pages(s, m, j + 1, j + 1, section, id + 1);
            assert forall|t1: int, t2: int| 0 <= t1 < t2 < pages.len() implies #[trigger] pages[t1].key
                <= #[trigger] pages[t2].key by {
                assert(pages[t2] == tail[t2 - 1]);
                if t1 == 0 {
                    assert(tail[0].key >= m[j + 1]);
                    assert(tail[t2 - 1].key >= tail[0].key);
                } else {
                    assert(pages[t1] == tail[t1 - 1]);
                }
            }
        }
    } else if last {
    } else {
        lemma_flush_pages_sorted(s, m, start, j + 1, section, id);
    }
}

/// Final ordering: the three passes each emit pages with ascending sort
/// keys, and the merge that [`spec_pack`] applies keeps the whole page
/// sequence in ascending key order.
pub proof fn lemma_pack_ordered(s: Seq<ImageInfo>, section: int, first_id: int)
    ensures
        sorted_by_key(
            merge_pages(
                merge_pages(
                    pair_pages(landscape_indices(s, s.len() as int), section, first_id),
                    solo_pages(
                        solo_indices(s, s.len() as int),
                        section,
                        first_id + pair_pages(
                            landscape_indices(s, s.len() as int),
                            section,
                            first_id,
                        ).len(),
                    ),
                ),
                flush_pages(
                    s,
                    missing_indices(s, s.len() as int),
                    0,
                    0,
                    section,
                    first_id + pair_pages(
                        landscape_indices(s, s.len() as int),
                        section,
                        first_id,
                    ).len() + solo_pages(
                        solo_indices(s, s.len() as int),
                        section,
                        first_id + pair_pages(
                            landscape_indices(s, s.len() as int),
                            section,
                            first_id,
                        ).len(),
                    ).len(),
                ),
            ),
        ),
{
    let n = s.len() as int;
    let li = landscape_indices(s, n);
    let si = solo_indices(s, n);
    let m = missing_indices(s, n);
    let p1 = pair_pages(li, section, first_id);
    let p2 = solo_pages(si, section, first_id + p1.len());
    let p3 = flush_pages(s, m, 0, 0, section, first_id + p1.len() + p2.len());
    lemma_indices_where_props(landscape_at(s), n);
    lemma_indices_where_props(solo_at(s), n);
    lemma_indices_where_props(remaining_at(s), n);
    lemma_pair_pages_sorted(li, section, first_id);
    lemma_solo_pages_sorted(si, section, first_id + p1.len() as int);
    if m.len() > 0 {
        lemma_flush_pages_sorted(s, m, 0, 0, section, first_id + p1.len() as int + p2.len() as int);
    }
    lemma_merge_sorted(p1, p2);
    lemma_merge_sorted(merge_pages(p1, p2), p3);
}

/// Each listed position knows its rank: the listing up to that position
/// has exactly that many elements.
proof fn lemma_indices_where_ranks(p: spec_fn(int) -> bool, k: int)
    requires
        k >= 0,
    ensures
        forall|t: int|
            0 <= t < indices_where(p, k).len() ==> indices_where(
                p,
                #[trigger] indices_where(p, k)[t],
            ).len() == t,
    decreases k,
{
    if k > 0 {
        lemma_indices_where_ranks(p, k - 1);
        lemma_indices_where_props(p, k - 1);
    }
}

/// Model of one keyed page held by the packer.
pub open spec fn keyed_view(p: (usize, PageInfo)) -> KeyedPage {
    KeyedPage { key: p.0 as int, page: p.1@ }
}

/// Model of the packer's working vectors.
pub open spec fn keyed_vec_view(v: Seq<(usize, PageInfo)>) -> Seq<KeyedPage> {
    v.map_values(|p: (usize, PageInfo)| keyed_view(p))
}

/// Model of a page vector.
pub open spec fn pages_view(v: Seq<PageInfo>) -> Seq<PageModel> {
    v.map_values(|p: PageInfo| p@)
}

/// Index vector as a sequence of mathematical integers.
pub open spec fn idx_view(v: Seq<usize>) -> Seq<int> {
    v.map_values(|u: usize| u as int)
}

/// Landscape-or-square test on the rotated dimensions.
fn is_landscape(im: &ImageInfo) -> (r: bool)
    ensures
        r == spec_is_landscape(*im),
{
    im.rotated_dims.0 >= im.rotated_dims.1
}

/// Requested-solo-portrait test.
fn is_solo(im: &ImageInfo) -> (r: bool)
    ensures
        r == spec_is_solo(*im),
{
    im.rotated_dims.0 < im.rotated_dims.1 && im.user_req == LayoutReq::OnePortrait
}

fn vec1(a: usize) -> (r: Vec<usize>)
    ensures
        r@ == seq![a],
{
    let mut r: Vec<usize> = Vec::new();
    r.push(a);
    proof {
        assert(r@ =~= seq![a]);
    }
    r
}

fn vec2(a: usize, b: usize) -> (r: Vec<usize>)
    ensures
        r@ == seq![a, b],
{
    let mut r: Vec<usize> = Vec::new();
    r.push(a);
    r.push(b);
    proof {
        assert(r@ =~= seq![a, b]);
    }
    r
}

fn vec3(a: usize, b: usize, c: usize) -> (r: Vec<usize>)
    ensures
        r@ == seq![a, b, c],
{
    let mut r: Vec<usize> = Vec::new();
    r.push(a);
    r.push(b);
    r.push(c);
    proof {
        assert(r@ =~= seq![a, b, c]);
    }
    r
}

fn vec4(a: usize, b: usize, c: usize, d: usize) -> (r: Vec<usize>)
    ensures
        r@ == seq![a, b, c, d],
{
    let mut r: Vec<usize> = Vec::new();
    r.push(a);
    r.push(b);
    r.push(c);
    r.push(d);
    proof {
        assert(r@ =~= seq![a, b, c, d]);
    }
    r
}

/// Collects the positions of landscape-or-square images.
fn collect_landscapes(images: &Vec<ImageInfo>) -> (r: Vec<usize>)
    ensures
        idx_view(r@) == landscape_indices(images@, images@.len() as int),
        r@.len() <= images@.len(),
{
    let mut r: Vec<usize> = Vec::new();
    let mut i: usize = 0;
    while i < images.len()
        invariant
            i <= images@.len(),
            r@.len() <= i,
            idx_view(r@) == landscape_indices(images@, i as int),
        decreases images@.len() - i,
    {
        if is_landscape(&images[i]) {
            r.push(i);
        }
        proof {
            assert(idx_view(r@) =~= landscape_indices(images@, i + 1));
        }
        i = i + 1;
    }
    r
}

/// Collects the positions of requested solo portraits.
fn collect_solos(images: &Vec<ImageInfo>) -> (r: Vec<usize>)
    ensures
        idx_view(r@) == solo_indices(images@, images@.len() as int),
        r@.len() <= images@.len(),
{
    let mut r: Vec<usize> = Vec::new();
    let mut i: usize = 0;
    while i < images.len()
        invariant
            i <= images@.len(),
            r@.len() <= i,
            idx_view(r@) == solo_indices(images@, i as int),
        decreases images@.len() - i,
    {
        if is_solo(&images[i]) {
            r.push(i);
        }
        proof {
            assert(idx_view(r@) =~= solo_indices(images@, i + 1));
        }
        i = i + 1;
    }
    r
}

/// Collects the positions left for the run-flush pass: images neither
/// consumed as a landscape pair member nor as a requested solo portrait.
fn collect_missing(images: &Vec<ImageInfo>, npaired: usize) -> (r: Vec<usize>)
    requires
        npaired as int == num_paired(images@),
    ensures
        idx_view(r@) == missing_indices(images@, images@.len() as int),
        r@.len() <= images@.len(),
{
    let mut r: Vec<usize> = Vec::new();
    let mut i: usize = 0;
    let mut land_rank: usize = 0;
    while i < images.len()
        invariant
            npaired as int == num_paired(images@),
            i <= images@.len(),
            r@.len() <= i,
            land_rank <= i,
            land_rank as int == landscape_indices(images@, i as int).len(),
            idx_view(r@) == missing_indices(images@, i as int),
        decreases images@.len() - i,
    {
        let im = &images[i];
        let landscape = is_landscape(im);
        let consumed = if landscape {
            land_rank < npaired
        } else {
            is_solo(im)
        };
        proof {
            assert(consumed == consumed_early(images@, i as int));
        }
        if !consumed {
            r.push(i);
        }
        proof {
            assert(idx_view(r@) =~= missing_indices(images@, i + 1));
            assert(landscape_indices(images@, i + 1).len() == landscape_indices(
                images@,
                i as int,
            ).len() + if spec_is_landscape(images@[i as int]) {
                1int
            } else {
                0int
            });
        }
        if landscape {
            land_rank = land_rank + 1;
        }
        i = i + 1;
    }
    r
}

/// Builds the pairing-pass pages from the landscape listing.
fn build_pair_pages(lands: &Vec<usize>, section: usize, first_id: usize) -> (r: Vec<
    (usize, PageInfo),
>)
    requires
        first_id + lands@.len() / 2 <= usize::MAX,
    ensures
        keyed_vec_view(r@) == pair_pages(idx_view(lands@), section as int, first_id as int),
        r@.len() == lands@.len() / 2,
{
    let ghost li = idx_view(lands@);
    let npairs = lands.len() / 2;
    let mut r: Vec<(usize, PageInfo)> = Vec::new();
    let mut pr: usize = 0;
    proof {
        assert(li.skip(0) =~= li);
        assert(keyed_vec_view(r@) + pair_pages(li, section as int, first_id as int) =~= pair_pages(
            li,
            section as int,
            first_id as int,
        ));
    }
    while pr < npairs
        invariant
            li == idx_view(lands@),
            lands@.len() <= usize::MAX,
            npairs == lands@.len() / 2,
            first_id + npairs <= usize::MAX,
            pr <= npairs,
            r@.len() == pr,
            pair_pages(li, section as int, first_id as int) == keyed_vec_view(r@) + pair_pages(
                li.skip(2 * pr),
                section as int,
                first_id + pr,
            ),
        decreases npairs - pr,
    {
        proof {
            assert(2 * pr + 1 < lands@.len());
        }
        let a = lands[2 * pr];
        let b = lands[2 * pr + 1];
        let page = PageInfo {
            sequence_index: first_id + pr,
            section,
            kind: PageKind::TwoLandscapes,
            images: vec2(a, b),
            title: None,
        };
        let ghost r_old = r@;
        r.push((a, page));
        proof {
            let rest = li.skip(2 * pr);
            assert(rest.len() == li.len() - 2 * pr >= 2);
            assert(rest[0] == li[2 * pr] && rest[1] == li[2 * pr + 1]);
            assert(li[2 * pr] == a as int && li[2 * pr + 1] == b as int);
            assert(rest.skip(2) =~= li.skip(2 * (pr + 1)));
            let kp = pair_pages(rest, section as int, first_id + pr)[0];
            assert(keyed_view((a, page)) =~= kp) by {
                assert(page@.images =~= seq![a as int, b as int]);
            }
            assert(keyed_vec_view(r@) =~= keyed_vec_view(r_old) + seq![keyed_view((a, page))]);
            assert((keyed_vec_view(r_old) + seq![kp]) + pair_pages(
                rest.skip(2),
                section as int,
                first_id + pr + 1,
            ) =~= keyed_vec_view(r_old) + (seq![kp] + pair_pages(
                rest.skip(2),
                section as int,
                first_id + pr + 1,
            )));
        }
        pr = pr + 1;
    }
    proof {
        assert(li.skip(2 * npairs).len() < 2);
        assert(pair_pages(li.skip(2 * npairs), section as int, first_id + npairs)
            =~= Seq::<KeyedPage>::empty());
        assert(keyed_vec_view(r@) + Seq::<KeyedPage>::empty() =~= keyed_vec_view(r@));
    }
    r
}

/// Builds the solo-pass pages from the solo listing.
fn build_solo_pages(solos: &Vec<usize>, section: usize, first_id: usize) -> (r: Vec<
    (usize, PageInfo),
>)
    requires
        first_id + solos@.len() <= usize::MAX,
    ensures
        keyed_vec_view(r@) == solo_pages(idx_view(solos@), section as int, first_id as int),
        r@.len() == solos@.len(),
{
    let ghost si = idx_view(solos@);
    let mut r: Vec<(usize, PageInfo)> = Vec::new();
    let mut k: usize = 0;
    proof {
        assert(si.skip(0) =~= si);
        assert(keyed_vec_view(r@) + solo_pages(si, section as int, first_id as int) =~= solo_pages(
            si,
            section as int,
            first_id as int,
        ));
    }
    while k < solos.len()
        invariant
            si == idx_view(solos@),
            first_id + solos@.len() <= usize::MAX,
            k <= solos@.len(),
            r@.len() == k,
            solo_pages(si, section as int, first_id as int) == keyed_vec_view(r@) + solo_pages(
                si.skip(k as int),
                section as int,
                first_id + k,
            ),
        decreases solos@.len() - k,
    {
        let a = solos[k];
        let page = PageInfo {
            sequence_index: first_id + k,
            section,
            kind: PageKind::OnePortrait,
            images: vec1(a),
            title: None,
        };
        let ghost r_old = r@;
        r.push((a, page));
        proof {
            let rest = si.skip(k as int);
            assert(rest.len() >= 1);
            assert(rest[0] == si[k as int] && si[k as int] == a as int);
            assert(rest.skip(1) =~= si.skip(k + 1));
            let kp = solo_pages(rest, section as int, first_id + k)[0];
            assert(keyed_view((a, page)) =~= kp) by {
                assert(page@.images =~= seq![a as int]);
            }
            assert(keyed_vec_view(r@) =~= keyed_vec_view(r_old) + seq![keyed_view((a, page))]);
            assert((keyed_vec_view(r_old) + seq![kp]) + solo_pages(
                rest.skip(1),
                section as int,
                first_id + k + 1,
            ) =~= keyed_vec_view(r_old) + (seq![kp] + solo_pages(
                rest.skip(1),
                section as int,
                first_id + k + 1,
            )));
        }
        k = k + 1;
    }
    proof {
        assert(solo_pages(si.skip(solos@.len() as int), section as int, first_id + solos@.len())
            =~= Seq::<KeyedPage>::empty());
        assert(keyed_vec_view(r@) + Seq::<KeyedPage>::empty() =~= keyed_vec_view(r@));
    }
    r
}

/// Slot order for a two-portraits-one-landscape page.
fn trio_order(images: &Vec<ImageInfo>, a: usize, b: usize, c: usize) -> (r: (usize, usize, usize))
    requires
        a < images@.len(),
        b < images@.len(),
        c < images@.len(),
    ensures
        seq![r.0 as int, r.1 as int, r.2 as int] == trio_slots(
            images@,
            a as int,
            b as int,
            c as int,
        ),
{
    if is_landscape(&images[a]) {
        (b, c, a)
    } else if is_landscape(&images[b]) {
        (a, c, b)
    } else {
        (a, b, c)
    }
}

/// Runs the flush pass over the images the first two passes left over.
fn build_flush_pages(
    images: &Vec<ImageInfo>,
    missing: &Vec<usize>,
    section: usize,
    first_id: usize,
) -> (r: Vec<(usize, PageInfo)>)
    requires
        forall|t: int| 0 <= t < missing@.len() ==> (#[trigger] missing@[t]) < images@.len(),
        first_id + missing@.len() <= usize::MAX,
    ensures
        keyed_vec_view(r@) == flush_pages(
            images@,
            idx_view(missing@),
            0,
            0,
            section as int,
            first_id as int,
        ),
        r@.len() <= missing@.len(),
{
    let ghost s = images@;
    let ghost m = idx_view(missing@);
    let mut r: Vec<(usize, PageInfo)> = Vec::new();
    let mut j: usize = 0;
    let mut run_start: usize = 0;
    let mut nb_landscape: usize = 0;
    proof {
        assert(keyed_vec_view(r@) + flush_pages(s, m, 0, 0, section as int, first_id as int)
            =~= flush_pages(s, m, 0, 0, section as int, first_id as int));
    }
    while j < missing.len()
        invariant
            s == images@,
            m == idx_view(missing@),
            forall|t: int| 0 <= t < missing@.len() ==> (#[trigger] missing@[t]) < images@.len(),
            first_id + missing@.len() <= usize::MAX,
            run_start <= j <= missing@.len(),
            j - run_start <= 3,
            nb_landscape as int == run_landscapes(s, m, run_start as int, j as int),
            nb_landscape <= j - run_start,
            r@.len() <= j,
            flush_pages(s, m, 0, 0, section as int, first_id as int) == keyed_vec_view(r@)
                + flush_pages(
                s,
                m,
                run_start as int,
                j as int,
                section as int,
                first_id + r@.len(),
            ),
        decreases missing@.len() - j,
    {
        let ghost r_old = r@;
        let ghost id: int = first_id + r@.len();
        let len = j - run_start + 1;
        let idx = missing[j];
        let landscape = is_landscape(&images[idx]);
        let lc = if landscape {
            nb_landscape + 1
        } else {
            nb_landscape
        };
        proof {
            assert(m[j as int] == idx as int);
            assert(lc as int == run_landscapes(s, m, run_start as int, j + 1));
        }
        let last = j == missing.len() - 1;
        if len == 3 && lc == 1 {
            let a = missing[run_start];
            let b = missing[run_start + 1];
            let slots = trio_order(images, a, b, idx);
            let page = PageInfo {
                sequence_index: first_id + r.len(),
                section,
                kind: PageKind::TwoPortraitsOneLandscape,
                images: vec3(slots.0, slots.1, slots.2),
                title: None,
            };
            r.push((idx, page));
            proof {
                let kp = flush_trio(s, m, run_start as int, j as int, section as int, id);
                assert(keyed_view((idx, page)) =~= kp) by {
                    assert(page@.images =~= trio_slots(s, a as int, b as int, idx as int));
                    assert(m[run_start as int] == a as int && m[run_start + 1] == b as int);
                }
                assert(keyed_vec_view(r@) =~= keyed_vec_view(r_old) + seq![kp]);
                let tail = flush_pages(s, m, j + 1, j + 1, section as int, id + 1);
                assert(flush_pages(s, m, run_start as int, j as int, section as int, id)
                    == seq![kp] + tail);
                assert((keyed_vec_view(r_old) + seq![kp]) + tail =~= keyed_vec_view(r_old) + (
                seq![kp] + tail));
            }
            run_start = j + 1;
            nb_landscape = 0;
        } else if len == 4 {
            let a = missing[run_start];
            let b = missing[run_start + 1];
            let c = missing[run_start + 2];
            let page = PageInfo {
                sequence_index: first_id + r.len(),
                section,
                kind: PageKind::FourPortraits,
                images: vec4(a, b, c, idx),
                title: None,
            };
            r.push((idx, page));
            proof {
                let kp = flush_pages(s, m, run_start as int, j as int, section as int, id)[0];
                assert(keyed_view((idx, page)) =~= kp) by {
                    assert(page@.images =~= seq![a as int, b as int, c as int, idx as int]);
                    assert(m[run_start as int] == a as int && m[run_start + 1] == b as int
                        && m[run_start + 2] == c as int);
                }
                assert(keyed_vec_view(r@) =~= keyed_vec_view(r_old) + seq![kp]);
                let tail = flush_pages(s, m, j + 1, j + 1, section as int, id + 1);
                assert(flush_pages(s, m, run_start as int, j as int, section as int, id)
                    == seq![kp] + tail);
                assert((keyed_vec_view(r_old) + seq![kp]) + tail =~= keyed_vec_view(r_old) + (
                seq![kp] + tail));
            }
            run_start = j + 1;
            nb_landscape = 0;
        } else if last && len == 1 {
            let page = PageInfo {
                sequence_index: first_id + r.len(),
                section,
                kind: PageKind::OnePortrait,
                images: vec1(idx),
                title: None,
            };
            r.push((idx, page));
            proof {
                let kp = flush_pages(s, m, run_start as int, j as int, section as int, id)[0];
                assert(keyed_view((idx, page)) =~= kp) by {
                    assert(page@.images =~= seq![idx as int]);
                }
                assert(keyed_vec_view(r@) =~= keyed_vec_view(r_old) + seq![kp]);
                assert(flush_pages(s, m, run_start as int, j as int, section as int, id)
                    == seq![kp]);
                assert(flush_pages(s, m, j + 1, j + 1, section as int, first_id + r@.len())
                    =~= Seq::<KeyedPage>::empty());
                assert((keyed_vec_view(r_old) + seq![kp]) + Seq::<KeyedPage>::empty()
                    =~= keyed_vec_view(r_old) + seq![kp]);
            }
            run_start = j + 1;
            nb_landscape = 0;
        } else if last && len == 2 {
            let a = missing[run_start];
            let page = PageInfo {
                sequence_index: first_id + r.len(),
                section,
                kind: PageKind::TwoLandscapes,
                images: vec2(a, idx),
                title: None,
            };
            r.push((idx, page));
            proof {
                let kp = flush_pages(s, m, run_start as int, j as int, section as int, id)[0];
                assert(keyed_view((idx, page)) =~= kp) by {
                    assert(page@.images =~= seq![a as int, idx as int]);
                    assert(m[run_start as int] == a as int);
                }
                assert(keyed_vec_view(r@) =~= keyed_vec_view(r_old) + seq![kp]);
                assert(flush_pages(s, m, run_start as int, j as int, section as int, id)
                    == seq![kp]);
                assert(flush_pages(s, m, j + 1, j + 1, section as int, first_id + r@.len())
                    =~= Seq::<KeyedPage>::empty());
                assert((keyed_vec_view(r_old) + seq![kp]) + Seq::<KeyedPage>::empty()
                    =~= keyed_vec_view(r_old) + seq![kp]);
            }
            run_start = j + 1;
            nb_landscape = 0;
        } else if last {
            proof {
                assert(len == 3);
            }
            let a = missing[run_start];
            let b = missing[run_start + 1];
            let slots = trio_order(images, a, b, idx);
            let page = PageInfo {
                sequence_index: first_id + r.len(),
                section,
                kind: PageKind::TwoPortraitsOneLandscape,
                images: vec3(slots.0, slots.1, slots.2),
                title: None,
            };
            r.push((idx, page));
            proof {
                let kp = flush_trio(s, m, run_start as int, j as int, section as int, id);
                assert(keyed_view((idx, page)) =~= kp) by {
                    assert(page@.images =~= trio_slots(s, a as int, b as int, idx as int));
                    assert(m[run_start as int] == a as int && m[run_start + 1] == b as int);
                }
                assert(keyed_vec_view(r@) =~= keyed_vec_view(r_old) + seq![kp]);
                assert(flush_pages(s, m, run_start as int, j as int, section as int, id)
                    == seq![kp]);
                assert(flush_pages(s, m, j + 1, j + 1, section as int, first_id + r@.len())
                    =~= Seq::<KeyedPage>::empty());
                assert((keyed_vec_view(r_old) + seq![kp]) + Seq::<KeyedPage>::empty()
                    =~= keyed_vec_view(r_old) + seq![kp]);
            }
            run_start = j + 1;
            nb_landscape = 0;
        } else {
            nb_landscape = lc;
        }
        j = j + 1;
    }
    proof {
        assert(flush_pages(s, m, run_start as int, j as int, section as int, first_id + r@.len())
            == Seq::<KeyedPage>::empty());
        assert(keyed_vec_view(r@) + Seq::<KeyedPage>::empty() =~= keyed_vec_view(r@));
    }
    r
}

/// Merges two key-sorted page vectors; on equal keys the left one comes
/// first.
fn merge_keyed(a: Vec<(usize, PageInfo)>, b: Vec<(usize, PageInfo)>) -> (r: Vec<
    (usize, PageInfo),
>)
    ensures
        keyed_vec_view(r@) == merge_pages(keyed_vec_view(a@), keyed_vec_view(b@)),
        r@.len() == a@.len() + b@.len(),
{
    let ghost ga = keyed_vec_view(a@);
    let ghost gb = keyed_vec_view(b@);
    let mut a = a;
    let mut b = b;
    let mut r: Vec<(usize, PageInfo)> = Vec::new();
    proof {
        assert(keyed_vec_view(r@) + merge_pages(ga, gb) =~= merge_pages(ga, gb));
    }
    while a.len() > 0 || b.len() > 0
        invariant
            merge_pages(ga, gb) == keyed_vec_view(r@) + merge_pages(
                keyed_vec_view(a@),
                keyed_vec_view(b@),
            ),
            r@.len() + a@.len() + b@.len() == ga.len() + gb.len(),
        decreases a@.len() + b@.len(),
    {
        let ghost r_old = r@;
        let ghost va = keyed_vec_view(a@);
        let ghost vb = keyed_vec_view(b@);
        if a.len() > 0 && (b.len() == 0 || a[0].0 <= b[0].0) {
            let x = a.remove(0);
            r.push(x);
            proof {
                assert(keyed_vec_view(a@) =~= va.skip(1));
                assert(keyed_vec_view(r@) =~= r_old.map_values(
                    |p: (usize, PageInfo)| keyed_view(p),
                ) + seq![va[0]]);
                let tail = merge_pages(va.skip(1), vb);
                if vb.len() == 0 {
                    assert(merge_pages(va, vb) == va);
                    assert(merge_pages(va.skip(1), vb) == va.skip(1));
                    assert(va =~= seq![va[0]] + va.skip(1));
                } else {
                    assert(merge_pages(va, vb) == seq![va[0]] + tail);
                }
                assert((r_old.map_values(|p: (usize, PageInfo)| keyed_view(p)) + seq![va[0]])
                    + tail =~= r_old.map_values(|p: (usize, PageInfo)| keyed_view(p)) + (
                seq![va[0]] + tail));
            }
        } else {
            let x = b.remove(0);
            r.push(x);
            proof {
                assert(keyed_vec_view(b@) =~= vb.skip(1));
                assert(keyed_vec_view(r@) =~= r_old.map_values(
                    |p: (usize, PageInfo)| keyed_view(p),
                ) + seq![vb[0]]);
                let tail = merge_pages(va, vb.skip(1));
                if va.len() == 0 {
                    assert(merge_pages(va, vb) == vb);
                    assert(merge_pages(va, vb.skip(1)) == vb.skip(1));
                    assert(vb =~= seq![vb[0]] + vb.skip(1));
                } else {
                    assert(va[0].key > vb[0].key);
                    assert(merge_pages(va, vb) == seq![vb[0]] + tail);
                }
                assert((r_old.map_values(|p: (usize, PageInfo)| keyed_view(p)) + seq![vb[0]])
                    + tail =~= r_old.map_values(|p: (usize, PageInfo)| keyed_view(p)) + (
                seq![vb[0]] + tail));
            }
        }
    }
    proof {
        assert(keyed_vec_view(r@) + merge_pages(keyed_vec_view(a@), keyed_vec_view(b@))
            =~= keyed_vec_view(r@));
    }
    r
}

/// Drops the sort keys and attaches the section title to the first page.
fn finalize(merged: Vec<(usize, PageInfo)>, title: &Option<String>) -> (r: Vec<PageInfo>)
    ensures
        pages_view(r@) == attach_title(strip_keys(keyed_vec_view(merged@)), opt_string_view(*title)),
        r@.len() == merged@.len(),
{
    let ghost total = attach_title(strip_keys(keyed_vec_view(merged@)), opt_string_view(*title));
    let ghost gm = keyed_vec_view(merged@);
    let mut merged = merged;
    let mut r: Vec<PageInfo> = Vec::new();
    while merged.len() > 0
        invariant
            total == attach_title(strip_keys(gm), opt_string_view(*title)),
            total.len() == gm.len(),
            r@.len() + merged@.len() == gm.len(),
            keyed_vec_view(merged@) =~= gm.skip(r@.len() as int),
            pages_view(r@) =~= total.subrange(0, r@.len() as int),
        decreases merged@.len(),
    {
        let ghost i = r@.len() as int;
        let ghost vm = keyed_vec_view(merged@);
        let first = r.len() == 0;
        let x = merged.remove(0);
        let mut page = x.1;
        if first {
            match title {
                Some(t) => {
                    page.title = Some(t.clone());
                },
                None => {},
            }
        }
        let ghost r_old = r@;
        r.push(page);
        proof {
            assert(keyed_vec_view(merged@) =~= vm.skip(1));
            assert(vm.skip(1) =~= gm.skip(i + 1));
            assert(gm.skip(i)[0] == gm[i]);
            assert(page@ =~= total[i]) by {
                assert(x.1@ == gm[i].page);
                assert(strip_keys(gm)[i] == gm[i].page);
            }
            assert(pages_view(r@) =~= pages_view(r_old) + seq![page@]);
            assert(pages_view(r@) =~= total.subrange(0, i + 1));
        }
    }
    proof {
        assert(pages_view(r@) =~= total);
    }
    r
}

/// Packs one section's images into pages.
///
/// The result is exactly [`spec_pack`] of the input: the pages of the
/// pairing, solo and run-flush passes, numbered from `first_id` in
/// construction order, ordered by their sort keys, with `title` on the
/// first page.  Being a function of the input alone, the packer is
/// deterministic: two runs over the same images give the same pages.
pub fn pack_section(
    images: &Vec<ImageInfo>,
    section: usize,
    first_id: usize,
    title: &Option<String>,
) -> (r: Vec<PageInfo>)
    requires
        first_id + images@.len() <= usize::MAX,
    ensures
        pages_view(r@) == spec_pack(
            images@,
            section as int,
            first_id as int,
            opt_string_view(*title),
        ),
        r@.len() <= images@.len(),
        forall|x: int|
            0 <= x < images@.len() ==> #[trigger] models_count(pages_view(r@), x) == 1,
        forall|x: int|
            !(0 <= x < images@.len()) ==> #[trigger] models_count(pages_view(r@), x) == 0,
{
    let ghost s = images@;
    let ghost n = images@.len() as int;
    let lands = collect_landscapes(images);
    let solos = collect_solos(images);
    let npaired = lands.len() - lands.len() % 2;
    proof {
        assert(npaired as int == num_paired(s));
    }
    let missing = collect_missing(images, npaired);
    proof {
        lemma_listing_counts(s, n);
        lemma_num_paired_bounds(s);
        lemma_indices_where_props(remaining_at(s), n);
        assert(missing@.len() == n - npaired - solos@.len());
        assert forall|t: int| 0 <= t < missing@.len() implies (#[trigger] missing@[t])
            < images@.len() by {
            assert(idx_view(missing@)[t] == missing@[t] as int);
        }
    }
    let p1 = build_pair_pages(&lands, section, first_id);
    let p2 = build_solo_pages(&solos, section, first_id + p1.len());
    let p3 = build_flush_pages(images, &missing, section, first_id + p1.len() + p2.len());
    let ghost n_pages = p1@.len() + p2@.len() + p3@.len();
    proof {
        assert(n_pages <= n);
    }
    let m12 = merge_keyed(p1, p2);
    let all = merge_keyed(m12, p3);
    let r = finalize(all, title);
    proof {
        lemma_pack_conservation(s, section as int, first_id as int, opt_string_view(*title));
    }
    r
}

} // verus!
