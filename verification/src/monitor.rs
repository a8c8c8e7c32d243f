//! The monitor: turns one polled clipboard reading into at most one attempted
//! insert, with its own tick-to-tick change fingerprint — a coarser check
//! than the store's adjacent-duplicate suppression, kept deliberately as a
//! second layer. The embedding application runs the polling loop, reads the
//! clipboard backend, broadcasts the returned events, and persists when asked
//! to; every decision in between is made here.

use vstd::prelude::*;

use crate::clipboard_item::{
    b64_decoded_of, b64_of, format_label_of, ClipboardItem, ContentView, FormatView, ItemView,
};
use crate::clipboard_manager::{insert_rejected, insert_suppressed, apply_insert, ClipboardManager};
use crate::text::{dec_of, first_nonspace, first_nonspace_exec, chars_of, join_with, u64_string};

verus! {

use vstd::string::StrSliceExecFns;
use vstd::string::StringExecFns;

/// A lifecycle event the monitor reports.
#[derive(Debug, Clone, Copy, PartialEq, Eq, Structural)]
pub enum ClipboardEvent {
    /// An insert was attempted and accepted by the store.
    ItemAdded,
    /// A backend reading failed, a captured image could not be encoded, or
    /// the store rejected the insert.
    Error,
    /// The polling loop has begun.
    Started,
}

/// One raw reading from the clipboard backend, best-available content first:
/// an image takes priority over plain text.
pub enum PolledContent {
    /// A raw pixel buffer, 4 bytes per pixel, with explicit dimensions.
    Image { rgba: Vec<u8>, width: u32, height: u32 },
    /// Plain text.
    Text(String),
}

/// The mathematical value of a [`PolledContent`].
pub enum PolledView {
    Image { rgba: Seq<u8>, width: u32, height: u32 },
    Text(Seq<char>),
}

impl View for PolledContent {
    type V = PolledView;

    open spec fn view(&self) -> PolledView {
        match self {
            PolledContent::Image { rgba, width, height } => PolledView::Image {
                rgba: rgba@,
                width: *width,
                height: *height,
            },
            PolledContent::Text(t) => PolledView::Text(t@),
        }
    }
}

/// What one poll of the backend produced.
pub enum PollOutcome {
    /// The backend handed over content.
    Captured(PolledContent),
    /// The backend held nothing usable.
    Empty,
    /// The backend could not be read.
    BackendError,
}

/// Why a captured reading produced no entry.
#[derive(Debug, Clone, Copy, PartialEq, Eq, Structural)]
pub enum CaptureError {
    /// Captured text was empty or whitespace only.
    EmptyContent,
    /// A captured pixel buffer could not be encoded for storage.
    EncodeFailed,
}

/// What `image`'s PNG encoder makes of a raw pixel buffer with the given
/// dimensions: the encoding, or `None` where the encoder refuses the
/// arguments. A pure function of its arguments.
pub uninterp spec fn png_result_of(rgba: Seq<u8>, width: int, height: int) -> Option<Seq<u8>>;

/// What `image`'s decoder makes of a payload: the raw pixel buffer, or
/// `None` where the payload is not a decodable image. A pure function of the
/// payload.
pub uninterp spec fn rgba_result_of(png: Seq<u8>) -> Option<Seq<u8>>;

/// The raw pixels a stored image payload decodes back to: base64 decoding
/// followed by image decoding, `None` where either refuses.
pub open spec fn decoded_pixels_of(data: Seq<char>) -> Option<Seq<u8>> {
    match b64_decoded_of(data) {
        Some(png) => rgba_result_of(png),
        None => None,
    }
}

/// Whether the encoder refuses a captured reading: only a pixel buffer can
/// be refused, when the encoder rejects it or its encoding would overrun the
/// base64 size guard.
pub open spec fn image_encode_refused(pv: PolledView) -> bool {
    &&& pv is Image
    &&& match pv {
        PolledView::Image { rgba, width, height } => match png_result_of(
            rgba,
            width as int,
            height as int,
        ) {
            Some(png) => png.len() > usize::MAX / 2,
            None => true,
        },
        PolledView::Text(_) => false,
    }
}

/// Whether text is empty or ASCII whitespace alone.
pub open spec fn is_blank(t: Seq<char>) -> bool {
    first_nonspace(t) is None
}

/// The content an entry built from a reading carries: a captured pixel
/// buffer is PNG-encoded and then stored base64-encoded; text is stored as
/// it came.
pub open spec fn expected_content(pv: PolledView) -> ContentView {
    match pv {
        PolledView::Image { rgba, width, height } => ContentView::Image {
            data: b64_of(png_result_of(rgba, width as int, height as int)->Some_0),
            format: FormatView::Png,
            width,
            height,
        },
        PolledView::Text(t) => ContentView::Text(t),
    }
}

/// The monitor's change fingerprint of a content value: the tick-to-tick
/// check, coarser than the store's fingerprint.
pub open spec fn tick_hash_of(c: ContentView) -> Seq<char> {
    match c {
        ContentView::Text(t) => t,
        ContentView::Image { data, format, width, height } => "img:"@ + dec_of(data.len())
            + ":"@ + format_label_of(format) + ":"@ + dec_of(width as nat) + "x"@ + dec_of(
            height as nat,
        ),
        ContentView::Html { html, .. } => "html:"@ + dec_of(html.len()),
        ContentView::Files(fs) => "files:"@ + join_with(fs, "|"@),
        ContentView::Other { content_type, data } => "other:"@ + content_type + ":"@ + dec_of(
            data.len(),
        ),
    }
}

/// The background monitor's own state: the previous tick's change
/// fingerprint, the last stored capture time, and the polling interval.
pub struct ClipboardMonitor {
    last_content_hash: String,
    last_timestamp: i64,
    poll_interval_ms: u64,
}

/// What one tick decided, given the entry it built: the monitor skips an
/// unchanged or empty fingerprint, and otherwise attempts the insert,
/// remembering the fingerprint whatever the store said. The entry's capture
/// time is clamped so that stored timestamps never decrease.
pub open spec fn built_tick(
    iv: ItemView,
    pv: PolledView,
    pre_mon: ClipboardMonitor,
    post_mon: ClipboardMonitor,
    pre_h: Seq<ItemView>,
    post_h: Seq<ItemView>,
    max_content: int,
    max_history: int,
    r: (Option<ClipboardEvent>, bool),
) -> bool {
    &&& iv.wf()
    &&& iv.content == expected_content(pv)
    &&& (pv matches PolledView::Text(t) ==> !is_blank(t))
    &&& if tick_hash_of(iv.content).len() == 0 || tick_hash_of(iv.content)
        == pre_mon.last_hash() {
        &&& r == (None::<ClipboardEvent>, false)
        &&& post_h == pre_h
        &&& post_mon == pre_mon
    } else {
        &&& post_mon.last_hash() == tick_hash_of(iv.content)
        &&& iv.timestamp >= pre_mon.last_ts()
        &&& post_mon.last_ts() == iv.timestamp
        &&& if insert_rejected(iv, max_content) {
            r == (Some(ClipboardEvent::Error), false) && post_h == pre_h
        } else {
            &&& r == (Some(ClipboardEvent::ItemAdded), !insert_suppressed(pre_h, iv))
            &&& post_h == apply_insert(pre_h, iv, max_content, max_history)
        }
    }
}

impl ClipboardMonitor {
    /// The previous tick's change fingerprint; empty before any tick stored one.
    pub closed spec fn last_hash(&self) -> Seq<char> {
        self.last_content_hash@
    }

    /// The capture time of the last entry this monitor handed to the store.
    pub closed spec fn last_ts(&self) -> i64 {
        self.last_timestamp
    }

    /// The polling interval, in milliseconds.
    pub closed spec fn poll_interval(&self) -> u64 {
        self.poll_interval_ms
    }

    /// A fresh monitor: no previous fingerprint, a 500 ms interval.
    pub fn new() -> (r: Self)
        ensures
            r.last_hash() == Seq::<char>::empty(),
            r.last_ts() == i64::MIN,
            r.poll_interval() == 500,
    {
        ClipboardMonitor {
            last_content_hash: String::new(),
            last_timestamp: i64::MIN,
            poll_interval_ms: 500,
        }
    }

    /// The same monitor with another polling interval.
    pub fn with_poll_interval(self, interval_ms: u64) -> (r: Self)
        ensures
            r.last_hash() == self.last_hash(),
            r.last_ts() == self.last_ts(),
            r.poll_interval() == interval_ms,
    {
        ClipboardMonitor { poll_interval_ms: interval_ms, ..self }
    }

    /// The polling interval, in milliseconds, for the loop that drives this
    /// monitor.
    pub fn poll_interval_ms(&self) -> (r: u64)
        ensures
            r == self.poll_interval(),
    {
        self.poll_interval_ms
    }

    /// Builds the entry a reading captures: a pixel buffer is PNG-encoded
    /// and stored base64-encoded; text is kept, unless blank. Non-blank text
    /// always yields an entry; an image does exactly when the encoder takes
    /// it.
    pub fn build_entry(content: PolledContent) -> (r: Result<ClipboardItem, CaptureError>)
        ensures
            match r {
                Ok(item) => {
                    &&& item.wf()
                    &&& item@.content == expected_content(content@)
                    &&& item@.id.len() == 36
                    &&& (content@ matches PolledView::Text(t) ==> !is_blank(t))
                    &&& !image_encode_refused(content@)
                    &&& (content@ matches PolledView::Image { rgba, width, height } ==> (rgba.len()
                        == 4 * width * height ==> decoded_pixels_of(
                        item@.content->Image_data,
                    ) == Some(rgba)))
                },
                Err(CaptureError::EmptyContent) => content@ matches PolledView::Text(t)
                    && is_blank(t),
                Err(CaptureError::EncodeFailed) => image_encode_refused(content@),
            },
            content@ matches PolledView::Text(t) && !is_blank(t) ==> r is Ok,
            content@ is Image && !image_encode_refused(content@) ==> r is Ok,
    {
        match content {
            PolledContent::Image { rgba, width, height } => {
                match Self::rgba_to_png(&rgba, width, height) {
                    Ok(png_data) => {
                        if png_data.len() <= usize::MAX / 2 {
                            Ok(ClipboardItem::new_image(
                                png_data,
                                crate::clipboard_item::ImageFormat::Png,
                                width,
                                height,
                            ))
                        } else {
                            Err(CaptureError::EncodeFailed)
                        }
                    },
                    Err(()) => Err(CaptureError::EncodeFailed),
                }
            },
            PolledContent::Text(text) => {
                let v = chars_of(text.as_str());
                if first_nonspace_exec(&v).is_none() {
                    Err(CaptureError::EmptyContent)
                } else {
                    Ok(ClipboardItem::new_text(text))
                }
            },
        }
    }

    /// Handles one poll: computes the change fingerprint, skips an unchanged
    /// or empty reading, and otherwise inserts the entry into the store.
    /// Returns the event to broadcast, if any, and whether the store mutated,
    /// so that the caller persists it.
    pub fn handle_tick(&mut self, manager: &mut ClipboardManager, poll: PollOutcome) -> (r: (
        Option<ClipboardEvent>,
        bool,
    ))
        requires
            old(manager).wf(),
        ensures
            final(manager).wf(),
            final(manager).same_config(old(manager)),
            final(self).poll_interval() == old(self).poll_interval(),
            match poll {
                PollOutcome::BackendError => r == (Some(ClipboardEvent::Error), false)
                    && final(manager).entries() == old(manager).entries() && *final(self) == *old(
                    self,
                ),
                PollOutcome::Empty => r == (None::<ClipboardEvent>, false)
                    && final(manager).entries() == old(manager).entries() && *final(self) == *old(
                    self,
                ),
                PollOutcome::Captured(pc) => {
                    ||| (image_encode_refused(pc@) && r == (Some(ClipboardEvent::Error), false)
                        && final(manager).entries() == old(manager).entries() && *final(self)
                        == *old(self))
                    ||| (pc@ matches PolledView::Text(t) && is_blank(t) && r == (
                        None::<ClipboardEvent>,
                        false,
                    ) && final(manager).entries() == old(manager).entries() && *final(self)
                        == *old(self))
                    ||| exists|iv: ItemView|
                        #[trigger] built_tick(
                            iv,
                            pc@,
                            *old(self),
                            *final(self),
                            old(manager).entries(),
                            final(manager).entries(),
                            old(manager).max_content() as int,
                            old(manager).max_history() as int,
                            r,
                        )
                },
            },
    {
        match poll {
            PollOutcome::BackendError => (Some(ClipboardEvent::Error), false),
            PollOutcome::Empty => (None, false),
            PollOutcome::Captured(pc) => {
                let ghost pv = pc@;
                match Self::build_entry(pc) {
                    Err(CaptureError::EmptyContent) => (None, false),
                    Err(CaptureError::EncodeFailed) => (Some(ClipboardEvent::Error), false),
                    Ok(mut item) => {
                        let content_hash = self.create_content_hash(&item);
                        if content_hash.as_str().is_empty() || content_hash.eq(
                            &self.last_content_hash,
                        ) {
                            proof {
                                assert(built_tick(
                                    item@,
                                    pv,
                                    *old(self),
                                    *self,
                                    old(manager).entries(),
                                    manager.entries(),
                                    old(manager).max_content() as int,
                                    old(manager).max_history() as int,
                                    (None::<ClipboardEvent>, false),
                                ));
                            }
                            (None, false)
                        } else {
                            if item.timestamp < self.last_timestamp {
                                item.timestamp = self.last_timestamp;
                            }
                            self.last_timestamp = item.timestamp;
                            self.last_content_hash = content_hash;
                            let ghost iv = item@;
                            let outcome = match manager.add_clipboard_item(item) {
                                Ok(mutated) => (Some(ClipboardEvent::ItemAdded), mutated),
                                Err(_) => (Some(ClipboardEvent::Error), false),
                            };
                            proof {
                                assert(built_tick(
                                    iv,
                                    pv,
                                    *old(self),
                                    *self,
                                    old(manager).entries(),
                                    manager.entries(),
                                    old(manager).max_content() as int,
                                    old(manager).max_history() as int,
                                    outcome,
                                ));
                            }
                            outcome
                        }
                    },
                }
            },
        }
    }

    /// The monitor's change fingerprint of an entry's content.
    fn create_content_hash(&self, item: &ClipboardItem) -> (r: String)
        ensures
            r@ == tick_hash_of(item@.content),
    {
        match &item.content {
            crate::clipboard_item::ClipboardContentType::Text(text) => text.clone(),
            crate::clipboard_item::ClipboardContentType::Image {
                data,
                format,
                width,
                height,
            } => {
                let mut r = String::new();
                r.append("img:");
                r.append(u64_string(data.as_str().unicode_len() as u64).as_str());
                r.append(":");
                match format {
                    crate::clipboard_item::ImageFormat::Png => r.append("Png"),
                    crate::clipboard_item::ImageFormat::Jpeg => r.append("Jpeg"),
                    crate::clipboard_item::ImageFormat::Bmp => r.append("Bmp"),
                    crate::clipboard_item::ImageFormat::Other(s) => r.append(s.as_str()),
                }
                r.append(":");
                r.append(u64_string(*width as u64).as_str());
                r.append("x");
                r.append(u64_string(*height as u64).as_str());
                proof {
                    assert(r@ =~= tick_hash_of(item@.content));
                }
                r
            },
            crate::clipboard_item::ClipboardContentType::Html { html, .. } => {
                let mut r = String::new();
                r.append("html:");
                r.append(u64_string(html.as_str().unicode_len() as u64).as_str());
                proof {
                    assert(r@ =~= tick_hash_of(item@.content));
                }
                r
            },
            crate::clipboard_item::ClipboardContentType::Files(files) => {
                let mut r = String::new();
                r.append("files:");
                r.append(crate::text::join_strings(files, "|").as_str());
                proof {
                    assert(r@ =~= tick_hash_of(item@.content));
                }
                r
            },
            crate::clipboard_item::ClipboardContentType::Other { content_type, data } => {
                let mut r = String::new();
                r.append("other:");
                r.append(content_type.as_str());
                r.append(":");
                r.append(u64_string(data.as_str().unicode_len() as u64).as_str());
                proof {
                    assert(r@ =~= tick_hash_of(item@.content));
                }
                r
            },
        }
    }

    /// Relies on `image`'s PNG encoder, writing to an in-memory buffer: the
    /// outcome is a pure function of the pixels and dimensions; `Err` exactly
    /// when the buffer is too small for the dimensions or the encoder refuses
    /// them. PNG stores RGBA8 losslessly, so an encoding of an exactly sized
    /// buffer decodes back to that buffer.
    #[verifier::external_body]
    fn rgba_to_png(rgba_data: &Vec<u8>, width: u32, height: u32) -> (r: Result<Vec<u8>, ()>)
        ensures
            r is Ok <==> png_result_of(rgba_data@, width as int, height as int) is Some,
            r matches Ok(v) ==> Some(v@) == png_result_of(
                rgba_data@,
                width as int,
                height as int,
            ),
            r matches Ok(v) ==> (rgba_data@.len() == 4 * width * height ==> rgba_result_of(v@)
                == Some(rgba_data@)),
    {
        let img_buffer =
            image::ImageBuffer::<image::Rgba<u8>, _>::from_raw(width, height, rgba_data.as_slice())
                .ok_or(())?;
        let mut png_data = Vec::new();
        img_buffer
            .write_to(&mut std::io::Cursor::new(&mut png_data), image::ImageFormat::Png)
            .map_err(|_| ())?;
        Ok(png_data)
    }

    /// Relies on `image`'s decoder, reading from an in-memory buffer with the
    /// format guessed from the payload itself: the outcome is a pure function
    /// of the payload; `Err` exactly when the payload is not a decodable
    /// image.
    #[verifier::external_body]
    pub fn png_to_rgba(png_data: &Vec<u8>) -> (r: Result<Vec<u8>, ()>)
        ensures
            r is Ok <==> rgba_result_of(png_data@) is Some,
            r matches Ok(v) ==> Some(v@) == rgba_result_of(png_data@),
    {
        let reader = image::ImageReader::new(std::io::Cursor::new(png_data.as_slice()))
            .with_guessed_format()
            .map_err(|_| ())?;
        let img = reader.decode().map_err(|_| ())?;
        Ok(img.to_rgba8().into_raw())
    }
}

} // verus!
