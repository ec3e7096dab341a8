//! What a paged search adds up to.
//!
//! A server that pages a list of entries answers the request for a page
//! with the entries from where the cookie of the request points, as many as
//! the request asks for, and with the cookie for what follows; the cookie is
//! empty when nothing follows. Against such a server the pages of a paged
//! search, one after the other, are the list: what one search without
//! paging gives.

use vstd::prelude::*;
use crate::client::{
    after_page, collected, opt_controls_view, page_start, request_control, returned_page,
    search_start, Pages, PagesView, SearchEntriesView,
};
use crate::controls::PagedResultsView;
use crate::error::Error;
use crate::model::{Message, ProtocolOp, ResultCode, SearchEntry};
use crate::request::SearchRequestView;

verus! {

/// The entries of a paged search in the state `p`, page after page, at most
/// `limit` pages, where `server` gives the messages that answer the request
/// for a page by the paging state that the request carries. The first error
/// ends the search.
pub open spec fn paged_entries(
    p: PagesView,
    server: spec_fn(PagedResultsView) -> Seq<Message>,
    limit: nat,
) -> Result<Seq<SearchEntry>, Error>
    decreases limit,
{
    if limit == 0 || !Pages::has_next(p) {
        Ok(Seq::empty())
    } else {
        let asked = PagesView { page_finished: false, ..p };
        let (page, state) = collected(page_start(p.page_control), server(request_control(p)));
        match page {
            Err(e) => Err(e),
            Ok(entries) => match paged_entries(
                after_page(asked, state),
                server,
                (limit - 1) as nat,
            ) {
                Ok(rest) => Ok(entries + rest),
                Err(e) => Err(e),
            },
        }
    }
}

/// The pages of a paged search in the state `p`, one list of entries for
/// each page in the order of the pages, at most `limit` pages, against
/// `server`. The first error ends the search.
pub open spec fn paged_pages(
    p: PagesView,
    server: spec_fn(PagedResultsView) -> Seq<Message>,
    limit: nat,
) -> Result<Seq<Seq<SearchEntry>>, Error>
    decreases limit,
{
    if limit == 0 || !Pages::has_next(p) {
        Ok(Seq::empty())
    } else {
        let asked = PagesView { page_finished: false, ..p };
        let (page, state) = collected(page_start(p.page_control), server(request_control(p)));
        match page {
            Err(e) => Err(e),
            Ok(entries) => match paged_pages(after_page(asked, state), server, (limit - 1) as nat) {
                Ok(rest) => Ok(seq![entries] + rest),
                Err(e) => Err(e),
            },
        }
    }
}

/// The list `data` from `lo` on, cut into pieces of `size` entries, the
/// last one of as many as are left. An empty rest is one empty piece.
pub open spec fn pieces(data: Seq<SearchEntry>, lo: int, size: int) -> Seq<Seq<SearchEntry>>
    decreases data.len() - lo,
{
    if size < 1 || lo < 0 {
        Seq::empty()
    } else if lo + size < data.len() {
        seq![data.subrange(lo, lo + size)] + pieces(data, lo + size, size)
    } else {
        seq![data.subrange(lo, data.len() as int)]
    }
}

/// A page whose "done" is an error ends the paged search: once the page is
/// handed back, there is no next page, whatever cookie was held.
pub proof fn lemma_failed_page_ends_search(
    p: PagesView,
    controls: Option<Seq<crate::model::ControlView>>,
    done: crate::model::LdapResult,
)
    ensures
        ({
            let asked = PagesView { page_finished: false, ..p };
            let (page, item) = crate::client::done_step(page_start(p.page_control), controls, done);
            item is Some ==> !Pages::has_next(after_page(asked, page))
        }),
{
}

/// Whether `answer` is the entries of `data` from `lo` up to `hi`, each in
/// a message of its own, and then a "done" with the result code of success.
pub open spec fn is_answer(data: Seq<SearchEntry>, lo: int, hi: int, answer: Seq<Message>) -> bool {
    &&& 0 <= lo <= hi <= data.len()
    &&& answer.len() == hi - lo + 1
    &&& forall|k: int|
        0 <= k < hi - lo ==> (#[trigger] answer[k]).protocol_op == ProtocolOp::SearchResEntry(
            data[lo + k],
        )
    &&& answer[hi - lo].protocol_op matches ProtocolOp::SearchResDone(r)
    &&& r.result_code == ResultCode::Success
}

/// The cookie that goes with the position `at` of a list of `len` entries:
/// empty at the start, else the cookie that the server chose.
pub open spec fn cookie_at(cookie: spec_fn(int) -> Seq<u8>, at: int) -> Seq<u8> {
    if at <= 0 {
        Seq::empty()
    } else {
        cookie(at)
    }
}

/// Whether `server` pages the list `data` in pages of `size` entries, with
/// `cookie` for its cookies: a cookie that points into the list is not
/// empty; the request that carries the cookie of a position is answered with
/// the entries from there, as many as `size` or as are left, and with a
/// paging state whose cookie points behind them, or is empty where none is
/// left.
#[verifier::opaque]
pub open spec fn pages_list(
    data: Seq<SearchEntry>,
    cookie: spec_fn(int) -> Seq<u8>,
    size: u32,
    server: spec_fn(PagedResultsView) -> Seq<Message>,
) -> bool {
    &&& forall|k: int| 0 < k < data.len() ==> (#[trigger] cookie(k)).len() > 0
    &&& forall|lo: int|
        0 <= lo < data.len() || lo == 0 ==> {
            let hi = if lo + size < data.len() {
                lo + size
            } else {
                data.len() as int
            };
            let answer = #[trigger] server(
                PagedResultsView { size, cookie: cookie_at(cookie, lo), has_entries: true },
            );
            &&& is_answer(data, lo, hi, answer)
            &&& returned_page(opt_controls_view(answer[hi - lo].controls)) matches Some(next)
            &&& next.cookie == (if hi < data.len() {
                cookie(hi)
            } else {
                Seq::empty()
            })
        }
}

/// The sequence of entries over an answer yields the entries of the answer
/// and ends; where it is the sequence of a page, it then holds the paging
/// state that came with the "done".
pub proof fn lemma_collected_answer(
    s: SearchEntriesView,
    data: Seq<SearchEntry>,
    lo: int,
    hi: int,
    answer: Seq<Message>,
)
    requires
        !s.ended,
        is_answer(data, lo, hi, answer),
        s.page_control is Some ==> returned_page(opt_controls_view(answer[hi - lo].controls))
            is Some,
    ensures
        collected(s, answer) == (
            Ok::<Seq<SearchEntry>, Error>(data.subrange(lo, hi)),
            SearchEntriesView {
                page_control: if s.page_control is Some {
                    returned_page(opt_controls_view(answer[hi - lo].controls))
                } else {
                    None
                },
                page_finished: true,
                ended: true,
            },
        ),
    decreases hi - lo,
{
    if lo == hi {
        assert(data.subrange(lo, hi) =~= Seq::<SearchEntry>::empty());
    } else {
        let rest = answer.skip(1);
        assert(answer[0].protocol_op == ProtocolOp::SearchResEntry(data[lo]));
        assert(is_answer(data, lo + 1, hi, rest)) by {
            assert forall|k: int| 0 <= k < hi - (lo + 1) implies (#[trigger] rest[k]).protocol_op
                == ProtocolOp::SearchResEntry(data[lo + 1 + k]) by {
                assert(rest[k] == answer[k + 1]);
            }
            assert(rest[hi - (lo + 1)] == answer[hi - lo]);
        }
        assert(rest[hi - (lo + 1)] == answer[hi - lo]);
        lemma_collected_answer(s, data, lo + 1, hi, rest);
        assert(seq![data[lo]] + data.subrange(lo + 1, hi) =~= data.subrange(lo, hi));
    }
}

/// A search without paging over the whole list, answered in one go, gives
/// the list.
pub proof fn lemma_search_gives_all(data: Seq<SearchEntry>, answer: Seq<Message>)
    requires
        is_answer(data, 0, data.len() as int, answer),
    ensures
        collected(search_start(), answer).0 == Ok::<Seq<SearchEntry>, Error>(data),
{
    lemma_collected_answer(search_start(), data, 0, data.len() as int, answer);
    assert(data.subrange(0, data.len() as int) =~= data);
}

/// The end of the page that starts at `lo`, in pages of `size` entries.
pub open spec fn page_end(data: Seq<SearchEntry>, lo: int, size: int) -> int {
    if lo + size < data.len() {
        lo + size
    } else {
        data.len() as int
    }
}

/// The state of a paged search after the page at `lo` was asked for, read to
/// its end and handed back.
pub open spec fn next_pages(
    p: PagesView,
    server: spec_fn(PagedResultsView) -> Seq<Message>,
) -> PagesView {
    after_page(
        PagesView { page_finished: false, ..p },
        collected(page_start(p.page_control), server(request_control(p))).1,
    )
}

/// One page of a paged search: the request that carries the cookie of `lo`
/// is answered with the entries from `lo` on; after it the search holds the
/// cookie of the page's end, and goes on if and only if entries are left.
pub proof fn lemma_one_page(
    data: Seq<SearchEntry>,
    cookie: spec_fn(int) -> Seq<u8>,
    server: spec_fn(PagedResultsView) -> Seq<Message>,
    p: PagesView,
    lo: int,
)
    requires
        p.page_size >= 1,
        pages_list(data, cookie, p.page_size, server),
        0 <= lo < data.len() || lo == 0,
        p.page_finished,
        p.page_control.has_entries,
        p.page_control.cookie == cookie_at(cookie, lo),
    ensures
        ({
            let hi = page_end(data, lo, p.page_size as int);
            let q = next_pages(p, server);
            &&& lo <= hi <= data.len()
            &&& hi < data.len() ==> lo < hi
            &&& collected(page_start(p.page_control), server(request_control(p))).0 == Ok::<
                Seq<SearchEntry>,
                Error,
            >(data.subrange(lo, hi))
            &&& q.page_size == p.page_size
            &&& q.page_finished
            &&& q.page_control.has_entries == (hi < data.len())
            &&& hi < data.len() ==> q.page_control.cookie == cookie_at(cookie, hi)
        }),
{
    reveal(pages_list);
    let size = p.page_size;
    let hi = page_end(data, lo, size as int);
    let asked_with = PagedResultsView { size, cookie: cookie_at(cookie, lo), has_entries: true };
    assert(request_control(p) == asked_with);
    let answer = server(asked_with);
    lemma_collected_answer(page_start(p.page_control), data, lo, hi, answer);
    let next = returned_page(opt_controls_view(answer[hi - lo].controls))->Some_0;
    assert(next.has_entries == (next.cookie.len() > 0));
    if hi < data.len() {
        assert(cookie(hi).len() > 0);
    }
}

/// From the position `lo` on, the pages of a paged search add up to the
/// rest of the list.
pub proof fn lemma_pages_from(
    data: Seq<SearchEntry>,
    cookie: spec_fn(int) -> Seq<u8>,
    server: spec_fn(PagedResultsView) -> Seq<Message>,
    p: PagesView,
    lo: int,
    limit: nat,
)
    requires
        p.page_size >= 1,
        pages_list(data, cookie, p.page_size, server),
        0 <= lo < data.len() || lo == 0,
        p.page_finished,
        p.page_control.has_entries,
        p.page_control.cookie == cookie_at(cookie, lo),
        limit > data.len() - lo,
    ensures
        paged_entries(p, server, limit) == Ok::<Seq<SearchEntry>, Error>(
            data.subrange(lo, data.len() as int),
        ),
    decreases limit,
{
    let len = data.len() as int;
    let hi = page_end(data, lo, p.page_size as int);
    let q = next_pages(p, server);
    lemma_one_page(data, cookie, server, p, lo);
    assert(Pages::has_next(p));
    let step = collected(page_start(p.page_control), server(request_control(p)));
    assert(step.0 == Ok::<Seq<SearchEntry>, Error>(data.subrange(lo, hi)));
    assert(paged_entries(p, server, limit) == match paged_entries(q, server, (limit - 1) as nat) {
        Ok(rest) => Ok::<Seq<SearchEntry>, Error>(data.subrange(lo, hi) + rest),
        Err(e) => Err(e),
    });
    if hi < len {
        lemma_pages_from(data, cookie, server, q, hi, (limit - 1) as nat);
        assert(data.subrange(lo, hi) + data.subrange(hi, len) =~= data.subrange(lo, len));
    } else {
        assert(!Pages::has_next(q));
        assert(data.subrange(lo, hi) + Seq::<SearchEntry>::empty() =~= data.subrange(lo, len));
    }
}

/// Against a server that pages a list, a paged search with any page size
/// from 1 on gives, page after page, what a search without paging over the
/// same list gives: the list.
pub proof fn lemma_paged_search_gives_all(
    data: Seq<SearchEntry>,
    cookie: spec_fn(int) -> Seq<u8>,
    server: spec_fn(PagedResultsView) -> Seq<Message>,
    request: SearchRequestView,
    page_size: u32,
    answer: Seq<Message>,
)
    requires
        page_size >= 1,
        pages_list(data, cookie, page_size, server),
        is_answer(data, 0, data.len() as int, answer),
    ensures
        paged_entries(
            PagesView {
                page_control: PagedResultsView {
                    size: page_size,
                    cookie: Seq::empty(),
                    has_entries: true,
                },
                page_finished: true,
                request,
                page_size,
            },
            server,
            data.len() + 1,
        ) == collected(search_start(), answer).0,
        collected(search_start(), answer).0 == Ok::<Seq<SearchEntry>, Error>(data),
{
    let start = PagesView {
        page_control: PagedResultsView { size: page_size, cookie: Seq::empty(), has_entries: true },
        page_finished: true,
        request,
        page_size,
    };
    lemma_pages_from(data, cookie, server, start, 0, data.len() + 1);
    lemma_search_gives_all(data, answer);
    assert(data.subrange(0, data.len() as int) =~= data);
}

/// From the position `lo` on, the pages of a paged search are the pieces
/// of the rest of the list, and however often the search is polled after
/// the last of them, no further page comes.
pub proof fn lemma_pages_are_pieces(
    data: Seq<SearchEntry>,
    cookie: spec_fn(int) -> Seq<u8>,
    server: spec_fn(PagedResultsView) -> Seq<Message>,
    p: PagesView,
    lo: int,
    limit: nat,
)
    requires
        p.page_size >= 1,
        pages_list(data, cookie, p.page_size, server),
        0 <= lo < data.len() || lo == 0,
        p.page_finished,
        p.page_control.has_entries,
        p.page_control.cookie == cookie_at(cookie, lo),
        limit > data.len() - lo,
    ensures
        paged_pages(p, server, limit) == Ok::<Seq<Seq<SearchEntry>>, Error>(
            pieces(data, lo, p.page_size as int),
        ),
    decreases limit,
{
    let len = data.len() as int;
    let hi = page_end(data, lo, p.page_size as int);
    let q = next_pages(p, server);
    lemma_one_page(data, cookie, server, p, lo);
    assert(Pages::has_next(p));
    let step = collected(page_start(p.page_control), server(request_control(p)));
    assert(step.0 == Ok::<Seq<SearchEntry>, Error>(data.subrange(lo, hi)));
    assert(paged_pages(p, server, limit) == match paged_pages(q, server, (limit - 1) as nat) {
        Ok(rest) => Ok::<Seq<Seq<SearchEntry>>, Error>(seq![data.subrange(lo, hi)] + rest),
        Err(e) => Err(e),
    });
    if hi < len {
        lemma_pages_are_pieces(data, cookie, server, q, hi, (limit - 1) as nat);
    } else {
        assert(!Pages::has_next(q));
        assert(seq![data.subrange(lo, len)] + Seq::<Seq<SearchEntry>>::empty() =~= seq![
            data.subrange(lo, len),
        ]);
    }
}

/// Cut into pieces of one entry, the rest of a list that is not empty has
/// as many pieces as entries, the `k`-th piece holding the `k`-th entry.
pub proof fn lemma_pieces_of_one(data: Seq<SearchEntry>, lo: int)
    requires
        0 <= lo < data.len(),
    ensures
        pieces(data, lo, 1).len() == data.len() - lo,
        forall|k: int|
            0 <= k < data.len() - lo ==> #[trigger] pieces(data, lo, 1)[k] == seq![data[lo + k]],
    decreases data.len() - lo,
{
    if lo + 1 < data.len() {
        lemma_pieces_of_one(data, lo + 1);
        let rest = pieces(data, lo + 1, 1);
        let all = pieces(data, lo, 1);
        assert(data.subrange(lo, lo + 1) =~= seq![data[lo]]);
        assert forall|k: int| 0 <= k < data.len() - lo implies #[trigger] all[k] == seq![
            data[lo + k],
        ] by {
            if k > 0 {
                assert(all[k] == rest[k - 1]);
            }
        }
    } else {
        assert(data.subrange(lo, data.len() as int) =~= seq![data[lo]]);
    }
}

/// With a page size of 1, against a server that pages a list of N entries,
/// N not 0, a paged search gives exactly N pages, each of one entry, in the
/// order of the list; polled again, it gives no further page.
pub proof fn lemma_pages_of_one_entry(
    data: Seq<SearchEntry>,
    cookie: spec_fn(int) -> Seq<u8>,
    server: spec_fn(PagedResultsView) -> Seq<Message>,
    request: SearchRequestView,
    limit: nat,
)
    requires
        data.len() > 0,
        limit > data.len(),
        pages_list(data, cookie, 1, server),
    ensures
        paged_pages(
            PagesView {
                page_control: PagedResultsView { size: 1, cookie: Seq::empty(), has_entries: true },
                page_finished: true,
                request,
                page_size: 1,
            },
            server,
            limit,
        ) matches Ok(pages) && pages.len() == data.len() && (forall|k: int|
            0 <= k < data.len() ==> #[trigger] pages[k] == seq![data[k]]),
{
    let start = PagesView {
        page_control: PagedResultsView { size: 1, cookie: Seq::empty(), has_entries: true },
        page_finished: true,
        request,
        page_size: 1,
    };
    lemma_pages_are_pieces(data, cookie, server, start, 0, limit);
    lemma_pieces_of_one(data, 0);
}

} // verus!
