//! Image paging: an encoded image travels as a run of equally long pages,
//! each a header byte `0x00` followed by the next bytes of the payload; zero
//! bytes fill what the payload leaves of the last page.

use vstd::prelude::*;
use crate::frame::{wire, zeros};

verus! {

/// The number of pages that `len` payload bytes take at `per_page` bytes a
/// page: `len / per_page`, rounded up.
pub open spec fn page_count(len: nat, per_page: nat) -> nat {
    if per_page == 0 {
        0
    } else {
        ((len + per_page - 1) / (per_page as int)) as nat
    }
}

/// The payload bytes that page `k` carries: bytes `k * per_page` up to
/// `(k + 1) * per_page`, or up to the end of the payload on the last page.
pub open spec fn page_content(payload: Seq<u8>, per_page: nat, k: int) -> Seq<u8> {
    let start = k * per_page;
    let end = if start + per_page <= payload.len() {
        start + per_page
    } else {
        payload.len() as int
    };
    payload.subrange(start, end)
}

/// Page `k` of `payload`: the header byte and the page's content, `per_page`
/// bytes of it; where the payload ends within the page, zero bytes fill the
/// rest, so that every page is `per_page + 1` bytes long.
pub open spec fn page(payload: Seq<u8>, per_page: nat, k: int) -> Seq<u8> {
    let content = page_content(payload, per_page, k);
    seq![0x00u8] + content + zeros((per_page - content.len()) as nat)
}

/// All pages of `payload`, in the order in which they are sent.
pub open spec fn pages(payload: Seq<u8>, per_page: nat) -> Seq<Seq<u8>> {
    Seq::new(page_count(payload.len(), per_page), |k: int| page(payload, per_page, k))
}

/// The content bytes of a page: all that stands behind its header byte.
pub open spec fn content_of(page: Seq<u8>) -> Seq<u8> {
    page.subrange(1, page.len() as int)
}

/// The content bytes of `pages`, one page after the other.
pub open spec fn contents(pages: Seq<Seq<u8>>) -> Seq<u8> {
    pages.map_values(|p: Seq<u8>| content_of(p)).flatten()
}

/// `page_count` is the ceiling of the quotient: `k` full pages are too few
/// and `k + 1` pages are enough exactly when the count is `k + 1`.
pub proof fn lemma_page_count(len: nat, per_page: nat, k: nat)
    requires
        per_page > 0,
        k * per_page < len <= (k + 1) * per_page,
    ensures
        page_count(len, per_page) == k + 1,
{
    let p = per_page as int;
    let n = len + per_page - 1;
    assert((k + 1) * p == k * p + p && (k + 2) * p == k * p + 2 * p) by (nonlinear_arith);
    assert(n / p == k + 1) by (nonlinear_arith)
        requires
            p > 0,
            (k + 1) * p <= n < (k + 2) * p,
    ;
}

/// An empty payload takes no page.
pub proof fn lemma_page_count_zero(per_page: nat)
    ensures
        page_count(0, per_page) == 0,
{
    if per_page > 0 {
        let p = per_page as int;
        assert((p - 1) / p == 0) by (nonlinear_arith)
            requires
                p > 0,
        ;
    }
}

/// The bounds that make `page_count` the ceiling of `len / per_page`.
pub proof fn lemma_page_count_is_ceiling(len: nat, per_page: nat)
    requires
        per_page > 0,
    ensures
        page_count(len, per_page) * per_page >= len,
        len > 0 ==> (page_count(len, per_page) - 1) * per_page < len,
        len == 0 ==> page_count(len, per_page) == 0,
{
    if len == 0 {
        lemma_page_count_zero(per_page);
    } else {
        let p = per_page as int;
        let l = len as int;
        let k = (l - 1) / p;
        assert(k * p < l <= (k + 1) * p && k >= 0) by (nonlinear_arith)
            requires
                p > 0,
                l > 0,
                k == (l - 1) / p,
        ;
        lemma_page_count(len, per_page, k as nat);
    }
}

/// The payload, zero-padded to a whole number of pages.
pub open spec fn page_aligned(payload: Seq<u8>, per_page: nat) -> Seq<u8> {
    payload + zeros((page_count(payload.len(), per_page) * per_page - payload.len()) as nat)
}

/// The content of page `k` is the `k`-th block of the page-aligned payload.
proof fn lemma_page_is_block(payload: Seq<u8>, per_page: nat, k: int)
    requires
        per_page > 0,
        0 <= k < page_count(payload.len(), per_page),
    ensures
        0 <= k * per_page,
        (k + 1) * per_page <= page_aligned(payload, per_page).len(),
        page(payload, per_page, k).len() == per_page + 1,
        page(payload, per_page, k)[0] == 0,
        content_of(page(payload, per_page, k)) == page_aligned(payload, per_page).subrange(
            k * per_page,
            (k + 1) * per_page,
        ),
{
    let len = payload.len();
    let count = page_count(len, per_page);
    let p = per_page as int;
    lemma_page_count_is_ceiling(len, per_page);
    assert(0 <= k * p && (k + 1) * p == k * p + p && (k + 1) * p <= count * p) by (nonlinear_arith)
        requires
            p > 0,
            0 <= k < count,
    ;
    assert(k * p < len) by (nonlinear_arith)
        requires
            p > 0,
            0 <= k <= count - 1,
            (count - 1) * p < len,
    ;
    let aligned = page_aligned(payload, per_page);
    let content = page_content(payload, per_page, k);
    let pg = page(payload, per_page, k);
    assert(content.len() <= per_page);
    assert(content_of(pg) =~= aligned.subrange(k * p, (k + 1) * p));
}

/// The contents of the first `n` pages are the first `n` blocks of the
/// page-aligned payload.
proof fn lemma_contents_prefix(payload: Seq<u8>, per_page: nat, n: nat)
    requires
        per_page > 0,
        n <= page_count(payload.len(), per_page),
    ensures
        0 <= n * per_page <= page_aligned(payload, per_page).len(),
        contents(pages(payload, per_page).take(n as int)) == page_aligned(payload, per_page).subrange(
            0,
            (n * per_page) as int,
        ),
    decreases n,
{
    let all = pages(payload, per_page);
    let aligned = page_aligned(payload, per_page);
    let strip = |p: Seq<u8>| content_of(p);
    let p = per_page as int;
    lemma_page_count_is_ceiling(payload.len(), per_page);
    if n == 0 {
        assert(all.take(0).map_values(strip) =~= Seq::<Seq<u8>>::empty());
        assert(contents(all.take(0)) =~= aligned.subrange(0, 0));
    } else {
        let m = (n - 1) as nat;
        lemma_contents_prefix(payload, per_page, m);
        lemma_page_is_block(payload, per_page, m as int);
        assert(n * p == m * p + p) by (nonlinear_arith)
            requires
                n == m + 1,
        ;
        assert(all.take(n as int).map_values(strip) =~= all.take(m as int).map_values(strip).push(
            content_of(all[m as int]),
        ));
        all.take(m as int).map_values(strip).lemma_flatten_push(content_of(all[m as int]));
        assert(contents(all.take(n as int)) =~= aligned.subrange(0, n * p));
    }
}

/// Paging loses nothing. The page count is the payload length divided by the
/// content bytes per page, rounded up; every page is one header byte `0x00`
/// and `per_page` content bytes; page `k` carries the payload from byte
/// `k * per_page` on, and zero bytes fill what the payload leaves of the
/// last page; so the bytes behind the headers of all pages, one page after
/// the other, are the payload followed by zero bytes only, and cut to the
/// payload's length they are the payload.
pub proof fn law_paging_round_trip(payload: Seq<u8>, per_page: nat)
    requires
        per_page > 0,
    ensures
        pages(payload, per_page).len() == page_count(payload.len(), per_page),
        page_count(payload.len(), per_page) * per_page >= payload.len(),
        payload.len() > 0 ==> (page_count(payload.len(), per_page) - 1) * per_page < payload.len(),
        payload.len() == 0 ==> page_count(payload.len(), per_page) == 0,
        forall|k: int|
            0 <= k < pages(payload, per_page).len() ==> {
                &&& (#[trigger] pages(payload, per_page)[k]).len() == per_page + 1
                &&& pages(payload, per_page)[k][0] == 0
                &&& k < pages(payload, per_page).len() - 1 ==> pages(payload, per_page)[k] == seq![0x00u8]
                    + payload.subrange(k * per_page, (k + 1) * per_page)
            },
        contents(pages(payload, per_page)).len() >= payload.len(),
        contents(pages(payload, per_page)).take(payload.len() as int) == payload,
        contents(pages(payload, per_page)) == page_aligned(payload, per_page),
{
    let all = pages(payload, per_page);
    let count = page_count(payload.len(), per_page);
    let p = per_page as int;
    lemma_page_count_is_ceiling(payload.len(), per_page);
    assert forall|k: int| 0 <= k < all.len() implies {
        &&& (#[trigger] all[k]).len() == per_page + 1
        &&& all[k][0] == 0
        &&& k < all.len() - 1 ==> all[k] == seq![0x00u8] + payload.subrange(k * per_page, (k + 1) * per_page)
    } by {
        lemma_page_is_block(payload, per_page, k);
        if k < all.len() - 1 {
            assert((k + 1) * p == k * p + p && (k + 1) * p <= (count - 1) * p) by (nonlinear_arith)
                requires
                    p > 0,
                    0 <= k < count - 1,
            ;
            assert(all[k] =~= seq![0x00u8] + payload.subrange(k * p, (k + 1) * p));
        }
    }
    lemma_contents_prefix(payload, per_page, count);
    assert(all.take(count as int) =~= all);
    assert(contents(all) =~= page_aligned(payload, per_page));
    assert(contents(all).take(payload.len() as int) =~= payload);
}

/// One page: the header byte, `count` bytes of `image_data` from `start` on,
/// and zero bytes up to `per_page + 1` bytes in all.
fn page_report(image_data: &[u8], start: usize, count: usize, per_page: usize) -> (buf: Vec<u8>)
    requires
        start + count <= image_data@.len() <= usize::MAX,
        count <= per_page < usize::MAX,
    ensures
        buf@ == seq![0x00u8] + image_data@.subrange(start as int, start + count) + zeros(
            (per_page - count) as nat,
        ),
{
    let mut buf: Vec<u8> = vec![0x00u8];
    let mut i: usize = 0;
    while i < count
        invariant
            i <= count,
            start + count <= image_data@.len() <= usize::MAX,
            buf@ == seq![0x00u8] + image_data@.subrange(start as int, start + i),
        decreases count - i,
    {
        buf.push(image_data[start + i]);
        i += 1;
        assert(buf@ =~= seq![0x00u8] + image_data@.subrange(start as int, start + i));
    }
    let ghost filled = buf@;
    while buf.len() < per_page + 1
        invariant
            per_page < usize::MAX,
            filled.len() == count + 1,
            filled.len() <= buf@.len() <= per_page + 1,
            buf@ == filled + zeros((buf@.len() - filled.len()) as nat),
        decreases per_page + 1 - buf@.len(),
    {
        buf.push(0u8);
        assert(buf@ =~= filled + zeros((buf@.len() - filled.len()) as nat));
    }
    assert(buf@ =~= filled + zeros((per_page - count) as nat));
    buf
}

/// Splits `image_data` into pages of one header byte and `per_page` content
/// bytes each, in the order in which they are to be written.
pub fn image_pages(image_data: &[u8], per_page: usize) -> (reports: Vec<Vec<u8>>)
    requires
        0 < per_page < usize::MAX,
    ensures
        wire(reports@) == pages(image_data@, per_page as nat),
{
    let ghost payload = image_data@;
    let ghost count = page_count(payload.len(), per_page as nat);
    let mut reports: Vec<Vec<u8>> = Vec::new();
    let mut bytes_sent: usize = 0;
    let mut bytes_remaining: usize = image_data.len();
    proof {
        lemma_page_count_zero(per_page as nat);
        lemma_page_count_is_ceiling(payload.len(), per_page as nat);
    }
    while bytes_remaining > 0
        invariant
            0 < per_page < usize::MAX,
            payload == image_data@,
            payload.len() <= usize::MAX,
            count == page_count(payload.len(), per_page as nat),
            bytes_sent + bytes_remaining == payload.len(),
            reports@.len() <= count,
            bytes_remaining > 0 ==> bytes_sent == reports@.len() * per_page,
            bytes_remaining == 0 ==> reports@.len() == count,
            forall|k: int| 0 <= k < reports@.len() ==> (#[trigger] reports@[k])@ == page(payload, per_page as nat, k),
        decreases bytes_remaining,
    {
        let this_length: usize = if bytes_remaining < per_page {
            bytes_remaining
        } else {
            per_page
        };
        let ghost k = reports@.len();
        proof {
            assert((k + 1) * per_page == k * per_page + per_page) by (nonlinear_arith);
            if bytes_remaining == this_length {
                lemma_page_count(payload.len(), per_page as nat, k);
            } else {
                lemma_page_count_is_ceiling(payload.len(), per_page as nat);
                assert(k + 1 < count) by (nonlinear_arith)
                    requires
                        (k + 1) * per_page < payload.len(),
                        count * per_page >= payload.len(),
                        per_page > 0,
                ;
            }
        }
        let buf = page_report(image_data, bytes_sent, this_length, per_page);
        assert(buf@ == page(payload, per_page as nat, k as int));
        reports.push(buf);
        bytes_sent += this_length;
        bytes_remaining -= this_length;
    }
    assert(wire(reports@) =~= pages(payload, per_page as nat));
    reports
}

} // verus!
