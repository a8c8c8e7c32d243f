//! The service facade: one composition of the history store and the monitor
//! that presentation layers talk to. It also prepares the payload a stored
//! entry is restored to the clipboard with; the embedding application
//! performs the actual backend write.

use vstd::prelude::*;

use crate::clipboard_item::{
    b64_decode, b64_decoded_of, b64_of, ClipboardContentType, ClipboardItem, ContentView, ItemView,
};
use crate::clipboard_manager::{
    exact_match_indices, fuzzy_candidates, sort_by_score, ClipboardManager, result_pair,
};
use crate::monitor::{
    built_tick, decoded_pixels_of, image_encode_refused, is_blank, rgba_result_of, ClipboardEvent,
    ClipboardMonitor, PollOutcome, PolledView,
};
use crate::text::{join_strings, join_with, lower_of};

verus! {

use vstd::utf8::{encode_utf8, valid_utf8};

/// One search result: the entry, its index in the searched snapshot, and a
/// fuzzy score where the fuzzy matcher produced one.
#[derive(Debug)]
pub struct SearchResult {
    pub index: usize,
    pub item: ClipboardItem,
    pub score: Option<i64>,
}

/// Why a stored entry could not be prepared for restoring.
#[derive(Debug, Clone, Copy, PartialEq, Eq, Structural)]
pub enum RestoreError {
    /// No entry sits at the requested index.
    ItemNotFound,
    /// The stored payload could not be decoded.
    DataCorrupt,
}

/// What the clipboard backend is asked to write when an entry is restored.
#[derive(Debug)]
pub enum RestorePayload {
    /// Plain text; also used for file lists (their paths joined by newlines)
    /// and for decoded binary payloads.
    Text(String),
    /// A raw pixel buffer with validated positive dimensions.
    Image { rgba: Vec<u8>, width: u32, height: u32 },
    /// Rich text, with its optional plain-text fallback.
    Html { html: String, plain_text: Option<String> },
}

/// Relies on `String::from_utf8`: succeeds exactly on valid UTF-8, and the
/// returned string holds exactly the given bytes.
#[verifier::external_body]
fn utf8_string(bytes: Vec<u8>) -> (r: Result<String, ()>)
    ensures
        r is Ok <==> valid_utf8(bytes@),
        r matches Ok(s) ==> encode_utf8(s@) == bytes@,
{
    match String::from_utf8(bytes) {
        Ok(s) => Ok(s),
        Err(_) => Err(()),
    }
}

/// Whether restoring an entry's content must fail: only a stored image can
/// be unrestorable, when its dimensions are zero or its payload refuses to
/// decode.
pub open spec fn restore_refused(c: ContentView) -> bool {
    match c {
        ContentView::Image { data, width, height, .. } => width == 0 || height == 0
            || decoded_pixels_of(data) is None,
        _ => false,
    }
}

/// What restoring an entry hands to the backend, for each content variant.
pub open spec fn restore_ok(c: ContentView, r: RestorePayload) -> bool {
    match c {
        ContentView::Text(t) => r matches RestorePayload::Text(s) && s@ == t,
        ContentView::Image { data, width, height, .. } => {
            &&& r matches RestorePayload::Image { rgba, width: w, height: h }
            &&& w == width && h == height && w > 0 && h > 0
            &&& Some(rgba@) == decoded_pixels_of(data)
            &&& forall|png: Seq<u8>|
                data == #[trigger] b64_of(png) ==> Some(rgba@) == rgba_result_of(png)
        },
        ContentView::Html { html, plain_text } => {
            &&& r matches RestorePayload::Html { html: rh, plain_text: rp }
            &&& rh@ == html
            &&& match (rp, plain_text) {
                (Some(a), Some(b)) => a@ == b,
                (None, None) => true,
                _ => false,
            }
        },
        ContentView::Files(fs) => r matches RestorePayload::Text(s) && s@ == join_with(
            fs,
            "\n"@,
        ),
        ContentView::Other { data, .. } => {
            &&& r matches RestorePayload::Text(s)
            &&& match b64_decoded_of(data) {
                Some(b) => if valid_utf8(b) {
                    encode_utf8(s@) == b
                } else {
                    s@ == data
                },
                None => s@ == data,
            }
        },
    }
}

/// Prepares the payload that restores an entry to the clipboard. Every
/// variant but a stored image always succeeds (an undecodable binary payload
/// falls back to its stored text form); an image fails exactly when its
/// dimensions are zero or its payload refuses to decode.
pub fn prepare_restore(item: &ClipboardItem) -> (r: Result<RestorePayload, RestoreError>)
    ensures
        r is Err <==> restore_refused(item@.content),
        match r {
            Ok(p) => restore_ok(item@.content, p),
            Err(e) => e == RestoreError::DataCorrupt,
        },
{
    match &item.content {
        ClipboardContentType::Text(text) => Ok(RestorePayload::Text(text.clone())),
        ClipboardContentType::Image { data, width, height, .. } => {
            if *width == 0 || *height == 0 {
                return Err(RestoreError::DataCorrupt);
            }
            match b64_decode(data.as_str()) {
                Ok(png_bytes) => {
                    match ClipboardMonitor::png_to_rgba(&png_bytes) {
                        Ok(rgba) => Ok(
                            RestorePayload::Image { rgba, width: *width, height: *height },
                        ),
                        Err(()) => Err(RestoreError::DataCorrupt),
                    }
                },
                Err(()) => Err(RestoreError::DataCorrupt),
            }
        },
        ClipboardContentType::Html { html, plain_text } => {
            let plain = match plain_text {
                Some(p) => Some(p.clone()),
                None => None,
            };
            Ok(RestorePayload::Html { html: html.clone(), plain_text: plain })
        },
        ClipboardContentType::Files(paths) => Ok(
            RestorePayload::Text(join_strings(paths, "\n")),
        ),
        ClipboardContentType::Other { data, .. } => {
            match b64_decode(data.as_str()) {
                Ok(decoded) => {
                    match utf8_string(decoded) {
                        Ok(text) => Ok(RestorePayload::Text(text)),
                        Err(()) => Ok(RestorePayload::Text(data.clone())),
                    }
                },
                Err(()) => Ok(RestorePayload::Text(data.clone())),
            }
        },
    }
}

/// The clipboard service: all management functionality behind one facade,
/// agnostic of any particular user interface.
pub struct ClipboardService {
    manager: ClipboardManager,
}

impl ClipboardService {
    /// The stored entries, newest first.
    pub closed spec fn entries(&self) -> Seq<ItemView> {
        self.manager.entries()
    }

    /// The service's invariant: its store's invariant.
    pub closed spec fn wf(&self) -> bool {
        self.manager.wf()
    }

    /// The store's content size limit.
    pub closed spec fn max_content(&self) -> usize {
        self.manager.max_content()
    }

    /// The store's history bound.
    pub closed spec fn max_history(&self) -> usize {
        self.manager.max_history()
    }

    /// The path the history is persisted to.
    pub closed spec fn storage_path(&self) -> Seq<char> {
        self.manager.storage_path()
    }

    /// A service over the given store.
    pub fn new_with_manager(manager: ClipboardManager) -> (r: Self)
        requires
            manager.wf(),
        ensures
            r.wf(),
            r.entries() == manager.entries(),
            r.max_content() == manager.max_content(),
            r.max_history() == manager.max_history(),
            r.storage_path() == manager.storage_path(),
    {
        ClipboardService { manager }
    }

    /// Drives one monitor tick against this service's store: the monitor
    /// decides, the store mutates, and the caller broadcasts the returned
    /// event and persists when asked to.
    pub fn poll_tick(&mut self, monitor: &mut ClipboardMonitor, poll: PollOutcome) -> (r: (
        Option<ClipboardEvent>,
        bool,
    ))
        requires
            old(self).wf(),
        ensures
            final(self).wf(),
            final(self).max_content() == old(self).max_content(),
            final(self).max_history() == old(self).max_history(),
            final(self).storage_path() == old(self).storage_path(),
            final(monitor).poll_interval() == old(monitor).poll_interval(),
            match poll {
                PollOutcome::BackendError => r == (Some(ClipboardEvent::Error), false)
                    && final(self).entries() == old(self).entries() && *final(monitor) == *old(
                    monitor,
                ),
                PollOutcome::Empty => r == (None::<ClipboardEvent>, false)
                    && final(self).entries() == old(self).entries() && *final(monitor) == *old(
                    monitor,
                ),
                PollOutcome::Captured(pc) => {
                    ||| (image_encode_refused(pc@) && r == (Some(ClipboardEvent::Error), false)
                        && final(self).entries() == old(self).entries() && *final(monitor)
                        == *old(monitor))
                    ||| (pc@ matches PolledView::Text(t) && is_blank(t) && r == (
                        None::<ClipboardEvent>,
                        false,
                    ) && final(self).entries() == old(self).entries() && *final(monitor) == *old(
                        monitor,
                    ))
                    ||| exists|iv: ItemView|
                        #[trigger] built_tick(
                            iv,
                            pc@,
                            *old(monitor),
                            *final(monitor),
                            old(self).entries(),
                            final(self).entries(),
                            old(self).max_content() as int,
                            old(self).max_history() as int,
                            r,
                        )
                },
            },
    {
        let ghost gp = poll;
        let r = monitor.handle_tick(&mut self.manager, poll);
        proof {
            assert(final(self).entries() == final(self).manager.entries());
            assert(old(self).entries() == old(self).manager.entries());
            match gp {
                PollOutcome::BackendError => {
                    assert(r == (Some(ClipboardEvent::Error), false));
                    assert(final(self).manager.entries() == old(self).manager.entries());
                },
                _ => {},
            }
        }
        r
    }

    /// A value copy of the current history, newest first.
    pub fn get_history(&self) -> (r: Vec<ClipboardItem>)
        ensures
            r@.map_values(|it: ClipboardItem| it@) == self.entries(),
    {
        self.manager.get_history()
    }

    /// How many entries the history holds.
    pub fn get_history_count(&self) -> (r: usize)
        ensures
            r == self.entries().len(),
    {
        self.manager.get_history_count()
    }

    /// Case-insensitive substring search over the entries' display text.
    pub fn search(&self, query: &str) -> (r: Vec<(usize, ClipboardItem)>)
        ensures
            r@.map_values(|p: (usize, ClipboardItem)| p.0 as int) == exact_match_indices(
                self.entries(),
                lower_of(query@),
            ),
            forall|k: int|
                0 <= k < r@.len() ==> (#[trigger] r@[k]).0 < self.entries().len() && r@[k].1@
                    == self.entries()[r@[k].0 as int],
    {
        self.manager.search_history(query)
    }

    /// Fuzzy search over the entries' display text, sorted by score
    /// descending; equal scores keep their history order.
    pub fn fuzzy_search(&self, query: &str) -> (r: Vec<(usize, ClipboardItem, i64)>)
        ensures
            r@.map_values(|t: (usize, ClipboardItem, i64)| result_pair(t)) == sort_by_score(
                fuzzy_candidates(self.entries(), query@),
            ),
            forall|k: int|
                0 <= k < r@.len() ==> (#[trigger] r@[k]).0 < self.entries().len() && r@[k].1@
                    == self.entries()[r@[k].0 as int],
    {
        self.manager.fuzzy_search_history(query)
    }

    /// Runs both searches and returns both result sets; exact results carry
    /// no score, fuzzy results carry theirs. Callers decide precedence.
    pub fn search_unified(&self, query: &str) -> (r: (Vec<SearchResult>, Vec<SearchResult>))
        ensures
            ({
                let exact = exact_match_indices(self.entries(), lower_of(query@));
                &&& r.0@.len() == exact.len()
                &&& forall|k: int|
                    0 <= k < r.0@.len() ==> (#[trigger] r.0@[k]).index == exact[k] && r.0@[k].item@
                        == self.entries()[exact[k]] && r.0@[k].score is None
            }),
            ({
                let fuzzy = sort_by_score(fuzzy_candidates(self.entries(), query@));
                &&& r.1@.len() == fuzzy.len()
                &&& forall|k: int|
                    0 <= k < r.1@.len() ==> (#[trigger] r.1@[k]).index == fuzzy[k].0 && r.1@[k].item@
                        == self.entries()[fuzzy[k].0] && (r.1@[k].score matches Some(s) && s
                        == fuzzy[k].1)
            }),
    {
        let ghost exact_ix = exact_match_indices(self.entries(), lower_of(query@));
        let ghost fuzzy_sorted = sort_by_score(fuzzy_candidates(self.entries(), query@));
        let exact_results = self.search(query);
        let fuzzy_results = self.fuzzy_search(query);
        let mut exact: Vec<SearchResult> = Vec::new();
        let mut i: usize = 0;
        while i < exact_results.len()
            invariant
                i <= exact_results@.len(),
                exact@.len() == i,
                exact_results@.map_values(|p: (usize, ClipboardItem)| p.0 as int) == exact_ix,
                forall|k: int|
                    0 <= k < exact_results@.len() ==> (#[trigger] exact_results@[k]).0
                        < self.entries().len() && exact_results@[k].1@ == self.entries()[
                        exact_results@[k].0 as int
                    ],
                forall|k: int|
                    0 <= k < i ==> (#[trigger] exact@[k]).index == exact_ix[k] && exact@[k].item@
                        == self.entries()[exact_ix[k]] && exact@[k].score is None,
            decreases exact_results@.len() - i,
        {
            let (index, item) = (exact_results[i].0, exact_results[i].1.clone());
            exact.push(SearchResult { index, item, score: None });
            i += 1;
        }
        let mut fuzzy: Vec<SearchResult> = Vec::new();
        let mut j: usize = 0;
        while j < fuzzy_results.len()
            invariant
                j <= fuzzy_results@.len(),
                fuzzy@.len() == j,
                fuzzy_results@.map_values(|t: (usize, ClipboardItem, i64)| result_pair(t))
                    == fuzzy_sorted,
                forall|k: int|
                    0 <= k < fuzzy_results@.len() ==> (#[trigger] fuzzy_results@[k]).0
                        < self.entries().len() && fuzzy_results@[k].1@ == self.entries()[
                        fuzzy_results@[k].0 as int
                    ],
                forall|k: int|
                    0 <= k < j ==> (#[trigger] fuzzy@[k]).index == fuzzy_sorted[k].0
                        && fuzzy@[k].item@ == self.entries()[fuzzy_sorted[k].0] && (
                    fuzzy@[k].score matches Some(s) && s == fuzzy_sorted[k].1),
            decreases fuzzy_results@.len() - j,
        {
            let (index, item, score) = (
                fuzzy_results[j].0,
                fuzzy_results[j].1.clone(),
                fuzzy_results[j].2,
            );
            fuzzy.push(SearchResult { index, item, score: Some(score) });
            j += 1;
        }
        (exact, fuzzy)
    }

    /// Prepares the entry at the given snapshot index for restoring to the
    /// clipboard. The index names a position in the current snapshot, not a
    /// stable identity.
    pub fn copy_to_clipboard(&self, index: usize) -> (r: Result<RestorePayload, RestoreError>)
        ensures
            index >= self.entries().len() <==> r == Err::<RestorePayload, _>(
                RestoreError::ItemNotFound,
            ),
            index < self.entries().len() ==> (r is Err <==> restore_refused(
                self.entries()[index as int].content,
            )),
            match r {
                Ok(p) => restore_ok(self.entries()[index as int].content, p),
                Err(e) => e == RestoreError::ItemNotFound || e == RestoreError::DataCorrupt,
            },
    {
        let history = self.manager.get_history();
        if index >= history.len() {
            return Err(RestoreError::ItemNotFound);
        }
        match prepare_restore(&history[index]) {
            Ok(p) => Ok(p),
            Err(e) => Err(e),
        }
    }

    /// Empties the history. The caller persists the now-empty sequence.
    pub fn clear_history(&mut self)
        requires
            old(self).wf(),
        ensures
            final(self).wf(),
            final(self).entries() == Seq::<ItemView>::empty(),
            final(self).max_content() == old(self).max_content(),
            final(self).max_history() == old(self).max_history(),
            final(self).storage_path() == old(self).storage_path(),
    {
        self.manager.clear_history()
    }

    /// Usage statistics, as the store reports them.
    pub fn get_usage_stats(&self) -> (r: (usize, usize, usize, usize))
        requires
            self.wf(),
        ensures
            r.0 == self.entries().len(),
            r.1 == crate::clipboard_manager::clamp_usize(crate::clipboard_manager::total_size(
                self.entries(),
            )),
            r.2 == if self.entries().len() == 0 {
                0int
            } else {
                r.1 as int / self.entries().len() as int
            },
            r.3 == crate::clipboard_manager::max_item_size(self.entries()),
    {
        self.manager.get_usage_stats()
    }

    /// The content size limit, the history bound, and the preview length.
    pub fn get_content_limits(&self) -> (r: (usize, usize, usize))
        ensures
            r == (
                self.max_content(),
                self.max_history(),
                crate::clipboard_manager::MAX_PREVIEW_LENGTH,
            ),
    {
        self.manager.get_content_limits()
    }

    /// The path the history is persisted to.
    pub fn get_storage_path(&self) -> (r: &String)
        ensures
            r@ == self.storage_path(),
    {
        self.manager.get_storage_path()
    }
}

} // verus!
