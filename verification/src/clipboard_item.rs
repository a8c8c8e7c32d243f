//! The content model: one captured clipboard payload, normalized into a
//! closed set of variants, with a deterministic content fingerprint, a byte
//! size estimate, and a lossy human-readable rendering.

use base64::Engine;
use vstd::prelude::*;

use crate::text::{
    chars_of, contains_chars, contains_seq, count_char, count_char_exec, dec_of, dec_of_int, digit_char,
    first_nonspace, first_nonspace_exec, i64_string, is_space_char, join_strings, join_with,
    last_nonspace, last_nonspace_exec, sat_add, u64_string,
};

verus! {

use vstd::utf8::encode_utf8;
use vstd::utf8::is_ascii_chars;
use vstd::string::StrSliceExecFns;
use vstd::string::StringExecFns;

/// The encoding format of a stored image payload.
#[derive(Debug)]
pub enum ImageFormat {
    Png,
    Jpeg,
    Bmp,
    Other(String),
}

/// The mathematical value of an [`ImageFormat`].
pub enum FormatView {
    Png,
    Jpeg,
    Bmp,
    Other(Seq<char>),
}

impl View for ImageFormat {
    type V = FormatView;

    open spec fn view(&self) -> FormatView {
        match self {
            ImageFormat::Png => FormatView::Png,
            ImageFormat::Jpeg => FormatView::Jpeg,
            ImageFormat::Bmp => FormatView::Bmp,
            ImageFormat::Other(s) => FormatView::Other(s@),
        }
    }
}

impl Clone for ImageFormat {
    fn clone(&self) -> (r: Self)
        ensures
            r@ == self@,
    {
        match self {
            ImageFormat::Png => ImageFormat::Png,
            ImageFormat::Jpeg => ImageFormat::Jpeg,
            ImageFormat::Bmp => ImageFormat::Bmp,
            ImageFormat::Other(s) => ImageFormat::Other(s.clone()),
        }
    }
}

/// One captured clipboard payload: exactly one variant is active.
#[derive(Debug)]
pub enum ClipboardContentType {
    Text(String),
    Image { data: String, format: ImageFormat, width: u32, height: u32 },
    Html { html: String, plain_text: Option<String> },
    Files(Vec<String>),
    Other { content_type: String, data: String },
}

/// The mathematical value of a [`ClipboardContentType`].
pub enum ContentView {
    Text(Seq<char>),
    Image { data: Seq<char>, format: FormatView, width: u32, height: u32 },
    Html { html: Seq<char>, plain_text: Option<Seq<char>> },
    Files(Seq<Seq<char>>),
    Other { content_type: Seq<char>, data: Seq<char> },
}

impl View for ClipboardContentType {
    type V = ContentView;

    open spec fn view(&self) -> ContentView {
        match self {
            ClipboardContentType::Text(t) => ContentView::Text(t@),
            ClipboardContentType::Image { data, format, width, height } => ContentView::Image {
                data: data@,
                format: format@,
                width: *width,
                height: *height,
            },
            ClipboardContentType::Html { html, plain_text } => ContentView::Html {
                html: html@,
                plain_text: match plain_text {
                    Some(p) => Some(p@),
                    None => None,
                },
            },
            ClipboardContentType::Files(files) => ContentView::Files(
                files@.map_values(|f: String| f@),
            ),
            ClipboardContentType::Other { content_type, data } => ContentView::Other {
                content_type: content_type@,
                data: data@,
            },
        }
    }
}

impl Clone for ClipboardContentType {
    fn clone(&self) -> (r: Self)
        ensures
            r@ == self@,
    {
        match self {
            ClipboardContentType::Text(t) => ClipboardContentType::Text(t.clone()),
            ClipboardContentType::Image { data, format, width, height } => {
                ClipboardContentType::Image {
                    data: data.clone(),
                    format: format.clone(),
                    width: *width,
                    height: *height,
                }
            },
            ClipboardContentType::Html { html, plain_text } => {
                let p = match plain_text {
                    Some(p) => Some(p.clone()),
                    None => None,
                };
                ClipboardContentType::Html { html: html.clone(), plain_text: p }
            },
            ClipboardContentType::Files(files) => {
                let copied = clone_paths(files);
                ClipboardContentType::Files(copied)
            },
            ClipboardContentType::Other { content_type, data } => ClipboardContentType::Other {
                content_type: content_type.clone(),
                data: data.clone(),
            },
        }
    }
}

/// Copies a list of paths, keeping every character.
fn clone_paths(files: &Vec<String>) -> (r: Vec<String>)
    ensures
        r@.map_values(|f: String| f@) == files@.map_values(|f: String| f@),
{
    let mut copied: Vec<String> = Vec::new();
    let mut i: usize = 0;
    while i < files.len()
        invariant
            i <= files@.len(),
            copied@.len() == i,
            forall|j: int| 0 <= j < i ==> #[trigger] copied@[j]@ == files@[j]@,
        decreases files@.len() - i,
    {
        copied.push(files[i].clone());
        i += 1;
    }
    proof {
        assert(copied@.map_values(|f: String| f@) =~= files@.map_values(|f: String| f@));
    }
    copied
}

/// The byte length of a string value, as `str::len` reports it.
pub open spec fn bytes_len(s: Seq<char>) -> usize {
    encode_utf8(s).len() as usize
}

/// The summed byte length of a list of paths.
pub open spec fn files_size(fs: Seq<Seq<char>>) -> int
    decreases fs.len(),
{
    if fs.len() == 0 {
        0
    } else {
        files_size(fs.drop_last()) + bytes_len(fs.last())
    }
}

/// The estimated size of a content value: the summed byte lengths of its
/// payload fields.
pub open spec fn content_size(c: ContentView) -> int {
    match c {
        ContentView::Text(t) => bytes_len(t) as int,
        ContentView::Image { data, .. } => bytes_len(data) as int,
        ContentView::Html { html, plain_text } => bytes_len(html) + match plain_text {
            Some(p) => bytes_len(p) as int,
            None => 0,
        },
        ContentView::Files(fs) => files_size(fs),
        ContentView::Other { content_type, data } => bytes_len(content_type) + bytes_len(data),
    }
}

/// `content_size`, clamped to what a `usize` can report.
pub open spec fn clamped_size(c: ContentView) -> usize {
    if content_size(c) <= usize::MAX {
        content_size(c) as usize
    } else {
        usize::MAX
    }
}

/// Seed of the fingerprint mix; the FNV-1a offset basis.
pub const FP_SEED: u64 = 0xcbf29ce484222325;

/// Multiplier of the fingerprint mix; the FNV-1a prime.
pub const FP_PRIME: u64 = 0x100000001b3;

/// One fingerprint mixing step. Kept opaque: proofs never need the
/// arithmetic, only that the step is a function of its inputs.
#[verifier::opaque]
pub open spec fn mix(h: u64, w: u64) -> u64 {
    (h ^ w).wrapping_mul(FP_PRIME)
}

/// The fingerprint mix folded over a word stream, left to right.
pub open spec fn mix_words(h: u64, ws: Seq<u64>) -> u64
    decreases ws.len(),
{
    if ws.len() == 0 {
        h
    } else {
        mix_words(mix(h, ws[0]), ws.drop_first())
    }
}

/// Each character as one word, through its code point.
pub open spec fn char_words(s: Seq<char>) -> Seq<u64> {
    Seq::new(s.len(), |i: int| (s[i] as u32) as u64)
}

/// A string field as words: its length, then its characters.
pub open spec fn str_words(s: Seq<char>) -> Seq<u64> {
    seq![s.len() as u64] + char_words(s)
}

/// An image format as words.
pub open spec fn format_words(f: FormatView) -> Seq<u64> {
    match f {
        FormatView::Png => seq![0u64],
        FormatView::Jpeg => seq![1u64],
        FormatView::Bmp => seq![2u64],
        FormatView::Other(s) => seq![3u64] + str_words(s),
    }
}

/// An optional string field as words.
pub open spec fn opt_words(p: Option<Seq<char>>) -> Seq<u64> {
    match p {
        None => seq![0u64],
        Some(s) => seq![1u64] + str_words(s),
    }
}

/// A list of paths as words.
pub open spec fn files_words(fs: Seq<Seq<char>>) -> Seq<u64>
    decreases fs.len(),
{
    if fs.len() == 0 {
        Seq::empty()
    } else {
        files_words(fs.drop_last()) + str_words(fs.last())
    }
}

/// The canonical word stream of a content value: a variant tag, then each
/// semantic field, strings length-prefixed.
pub open spec fn content_words(c: ContentView) -> Seq<u64> {
    match c {
        ContentView::Text(t) => seq![0u64] + str_words(t),
        ContentView::Image { data, format, width, height } => seq![1u64] + str_words(data)
            + format_words(format) + seq![width as u64, height as u64],
        ContentView::Html { html, plain_text } => seq![2u64] + str_words(html) + opt_words(
            plain_text,
        ),
        ContentView::Files(fs) => seq![3u64, fs.len() as u64] + files_words(fs),
        ContentView::Other { content_type, data } => seq![4u64] + str_words(content_type)
            + str_words(data),
    }
}

/// The deterministic fingerprint of a content value: a pure function of the
/// variant's semantic fields, and of nothing else.
pub open spec fn fingerprint_of(c: ContentView) -> u64 {
    mix_words(FP_SEED, content_words(c))
}

/// Folding the mix over a concatenation folds each part in turn.
pub proof fn lemma_mix_words_concat(h: u64, a: Seq<u64>, b: Seq<u64>)
    ensures
        mix_words(h, a + b) == mix_words(mix_words(h, a), b),
    decreases a.len(),
{
    if a.len() == 0 {
        assert(a + b =~= b);
    } else {
        assert((a + b)[0] == a[0]);
        assert((a + b).drop_first() =~= a.drop_first() + b);
        lemma_mix_words_concat(mix(h, a[0]), a.drop_first(), b);
    }
}

fn mix_word(h: u64, w: u64) -> (r: u64)
    ensures
        r == mix(h, w),
{
    proof {
        reveal(mix);
    }
    (h ^ w).wrapping_mul(FP_PRIME)
}

/// Folding the mix over a single word is one step.
proof fn lemma_mix_words_one(h: u64, w: u64)
    ensures
        mix_words(h, seq![w]) == mix(h, w),
{
    reveal_with_fuel(mix_words, 2);
    assert(seq![w].drop_first() =~= Seq::<u64>::empty());
}

fn mix_one(h: u64, w: u64) -> (r: u64)
    ensures
        r == mix_words(h, seq![w]),
{
    proof {
        lemma_mix_words_one(h, w);
    }
    mix_word(h, w)
}

/// Mixes in one string field: its length, then its characters.
fn mix_str(h: u64, s: &str) -> (r: u64)
    ensures
        r == mix_words(h, str_words(s@)),
{
    let v = chars_of(s);
    let n = v.len();
    let mut acc = mix_one(h, n as u64);
    proof {
        assert(mix_words(h, str_words(s@)) == mix_words(acc, char_words(s@))) by {
            assert(str_words(s@) =~= seq![s@.len() as u64] + char_words(s@));
            lemma_mix_words_concat(h, seq![s@.len() as u64], char_words(s@));
        }
    }
    let ghost cw = char_words(s@);
    let mut i: usize = 0;
    proof {
        assert(cw.take(0) =~= Seq::<u64>::empty());
    }
    while i < n
        invariant
            i <= n,
            n == v@.len(),
            v@ == s@,
            cw == char_words(s@),
            acc == mix_words(mix_words(h, seq![s@.len() as u64]), cw.take(i as int)),
        decreases n - i,
    {
        let ghost pre = acc;
        let c = v[i];
        acc = mix_word(acc, (c as u32) as u64);
        proof {
            assert(cw.take(i + 1) =~= cw.take(i as int) + seq![cw[i as int]]);
            lemma_mix_words_concat(
                mix_words(h, seq![s@.len() as u64]),
                cw.take(i as int),
                seq![cw[i as int]],
            );
            lemma_mix_words_one(pre, cw[i as int]);
            assert(cw[i as int] == (c as u32) as u64);
        }
        i += 1;
    }
    proof {
        assert(cw.take(n as int) =~= cw);
    }
    acc
}

/// Computes the deterministic content fingerprint.
pub(crate) fn content_fingerprint(content: &ClipboardContentType) -> (r: u64)
    ensures
        r == fingerprint_of(content@),
{
    let ghost cws = content_words(content@);
    match content {
        ClipboardContentType::Text(t) => {
            let h = mix_one(FP_SEED, 0);
            let r = mix_str(h, t.as_str());
            proof {
                lemma_mix_words_concat(FP_SEED, seq![0u64], str_words(t@));
            }
            r
        },
        ClipboardContentType::Image { data, format, width, height } => {
            let h = mix_one(FP_SEED, 1);
            let h = mix_str(h, data.as_str());
            let ghost h2 = h;
            let h = match format {
                ImageFormat::Png => mix_one(h, 0),
                ImageFormat::Jpeg => mix_one(h, 1),
                ImageFormat::Bmp => mix_one(h, 2),
                ImageFormat::Other(s) => {
                    let hh = mix_one(h, 3);
                    let r = mix_str(hh, s.as_str());
                    proof {
                        lemma_mix_words_concat(h2, seq![3u64], str_words(s@));
                    }
                    r
                },
            };
            proof {
                assert(h == mix_words(h2, format_words(format@)));
            }
            let h = mix_one(h, *width as u64);
            let h = mix_one(h, *height as u64);
            proof {
                lemma_mix_words_concat(FP_SEED, seq![1u64], str_words(data@));
                lemma_mix_words_concat(
                    FP_SEED,
                    seq![1u64] + str_words(data@),
                    format_words(format@),
                );
                lemma_mix_words_concat(
                    FP_SEED,
                    seq![1u64] + str_words(data@) + format_words(format@),
                    seq![*width as u64],
                );
                lemma_mix_words_concat(
                    FP_SEED,
                    seq![1u64] + str_words(data@) + format_words(format@) + seq![*width as u64],
                    seq![*height as u64],
                );
                assert(cws =~= seq![1u64] + str_words(data@) + format_words(format@) + seq![
                    *width as u64,
                ] + seq![*height as u64]);
            }
            h
        },
        ClipboardContentType::Html { html, plain_text } => {
            let h = mix_one(FP_SEED, 2);
            let h = mix_str(h, html.as_str());
            let ghost h2 = h;
            let h = match plain_text {
                None => mix_one(h, 0),
                Some(p) => {
                    let hh = mix_one(h, 1);
                    let r = mix_str(hh, p.as_str());
                    proof {
                        lemma_mix_words_concat(h2, seq![1u64], str_words(p@));
                    }
                    r
                },
            };
            proof {
                lemma_mix_words_concat(FP_SEED, seq![2u64], str_words(html@));
                lemma_mix_words_concat(
                    FP_SEED,
                    seq![2u64] + str_words(html@),
                    opt_words(content@->Html_plain_text),
                );
                assert(cws =~= seq![2u64] + str_words(html@) + opt_words(
                    content@->Html_plain_text,
                ));
            }
            h
        },
        ClipboardContentType::Files(files) => {
            let ghost fvs = files@.map_values(|f: String| f@);
            let h = mix_one(FP_SEED, 3);
            let mut acc = mix_one(h, files.len() as u64);
            proof {
                lemma_mix_words_concat(FP_SEED, seq![3u64], seq![fvs.len() as u64]);
                assert(seq![3u64, fvs.len() as u64] =~= seq![3u64] + seq![fvs.len() as u64]);
                assert(acc == mix_words(FP_SEED, seq![3u64, fvs.len() as u64]));
                assert(fvs.take(0) =~= Seq::<Seq<char>>::empty());
            }
            let ghost start = acc;
            let mut i: usize = 0;
            while i < files.len()
                invariant
                    i <= files@.len(),
                    fvs == files@.map_values(|f: String| f@),
                    start == mix_words(FP_SEED, seq![3u64, fvs.len() as u64]),
                    acc == mix_words(start, files_words(fvs.take(i as int))),
                decreases files@.len() - i,
            {
                acc = mix_str(acc, files[i].as_str());
                proof {
                    assert(fvs.take(i + 1).drop_last() =~= fvs.take(i as int));
                    assert(files_words(fvs.take(i + 1)) == files_words(fvs.take(i as int))
                        + str_words(fvs[i as int]));
                    lemma_mix_words_concat(
                        start,
                        files_words(fvs.take(i as int)),
                        str_words(fvs[i as int]),
                    );
                }
                i += 1;
            }
            proof {
                assert(fvs.take(fvs.len() as int) =~= fvs);
                lemma_mix_words_concat(
                    FP_SEED,
                    seq![3u64, fvs.len() as u64],
                    files_words(fvs),
                );
            }
            acc
        },
        ClipboardContentType::Other { content_type, data } => {
            let h = mix_one(FP_SEED, 4);
            let h = mix_str(h, content_type.as_str());
            let h = mix_str(h, data.as_str());
            proof {
                lemma_mix_words_concat(FP_SEED, seq![4u64], str_words(content_type@));
                lemma_mix_words_concat(
                    FP_SEED,
                    seq![4u64] + str_words(content_type@),
                    str_words(data@),
                );
                assert(cws =~= seq![4u64] + str_words(content_type@) + str_words(data@));
            }
            h
        },
    }
}

/// Computes the clamped estimated size of a content value.
pub(crate) fn content_size_exec(content: &ClipboardContentType) -> (r: usize)
    ensures
        r == clamped_size(content@),
{
    match content {
        ClipboardContentType::Text(t) => t.as_str().len(),
        ClipboardContentType::Image { data, .. } => data.as_str().len(),
        ClipboardContentType::Html { html, plain_text } => {
            let p = match plain_text {
                Some(p) => p.as_str().len(),
                None => 0,
            };
            sat_add(html.as_str().len(), p)
        },
        ClipboardContentType::Files(files) => {
            let ghost fvs = files@.map_values(|f: String| f@);
            let mut acc: usize = 0;
            let mut i: usize = 0;
            proof {
                assert(fvs.take(0) =~= Seq::<Seq<char>>::empty());
            }
            while i < files.len()
                invariant
                    i <= files@.len(),
                    fvs == files@.map_values(|f: String| f@),
                    acc == if files_size(fvs.take(i as int)) <= usize::MAX {
                        files_size(fvs.take(i as int))
                    } else {
                        usize::MAX as int
                    },
                decreases files@.len() - i,
            {
                proof {
                    assert(fvs.take(i + 1).drop_last() =~= fvs.take(i as int));
                    assert(fvs.take(i + 1).last() == fvs[i as int]);
                    assert(files_size(fvs.take(i as int)) >= 0) by {
                        lemma_files_size_nonneg(fvs.take(i as int));
                    }
                }
                acc = sat_add(acc, files[i].as_str().len());
                i += 1;
            }
            proof {
                assert(fvs.take(fvs.len() as int) =~= fvs);
            }
            acc
        },
        ClipboardContentType::Other { content_type, data } => sat_add(
            content_type.as_str().len(),
            data.as_str().len(),
        ),
    }
}

/// The summed size of a list of paths is never negative.
pub proof fn lemma_files_size_nonneg(fs: Seq<Seq<char>>)
    ensures
        files_size(fs) >= 0,
    decreases fs.len(),
{
    if fs.len() > 0 {
        lemma_files_size_nonneg(fs.drop_last());
    }
}

/// An estimated content size is never negative.
pub proof fn lemma_content_size_nonneg(c: ContentView)
    ensures
        content_size(c) >= 0,
{
    if let ContentView::Files(fs) = c {
        lemma_files_size_nonneg(fs);
    }
}

/// Whether every string field of a content value is short enough for its
/// length prefix to be exact. Every content value an executable program can
/// hold satisfies this.
pub open spec fn bounded_content(c: ContentView) -> bool {
    match c {
        ContentView::Text(t) => t.len() <= u64::MAX,
        ContentView::Image { data, format, .. } => data.len() <= u64::MAX && match format {
            FormatView::Other(s) => s.len() <= u64::MAX,
            _ => true,
        },
        ContentView::Html { html, plain_text } => html.len() <= u64::MAX && match plain_text {
            Some(p) => p.len() <= u64::MAX,
            None => true,
        },
        ContentView::Files(fs) => fs.len() <= u64::MAX && forall|i: int|
            0 <= i < fs.len() ==> (#[trigger] fs[i]).len() <= u64::MAX,
        ContentView::Other { content_type, data } => content_type.len() <= u64::MAX && data.len()
            <= u64::MAX,
    }
}

/// A length-prefixed string field can be parsed back off the front of a word
/// stream: equal streams mean equal fields and equal remainders.
proof fn lemma_str_words_parse(s1: Seq<char>, s2: Seq<char>, r1: Seq<u64>, r2: Seq<u64>)
    requires
        s1.len() <= u64::MAX,
        s2.len() <= u64::MAX,
        str_words(s1) + r1 == str_words(s2) + r2,
    ensures
        s1 == s2,
        r1 == r2,
{
    let a = str_words(s1) + r1;
    let b = str_words(s2) + r2;
    assert(a[0] == s1.len() as u64);
    assert(b[0] == s2.len() as u64);
    assert(s1.len() == s2.len());
    assert forall|i: int| 0 <= i < s1.len() implies s1[i] == s2[i] by {
        assert(a[1 + i] == (s1[i] as u32) as u64);
        assert(b[1 + i] == (s2[i] as u32) as u64);
        assert(s1[i] as u32 == s2[i] as u32);
        vstd::utf8::char_u32_cast(s1[i], s1[i] as u32);
        vstd::utf8::char_u32_cast(s2[i], s2[i] as u32);
    }
    assert(s1 =~= s2);
    assert(r1 =~= r2) by {
        assert(a.skip(1 + s1.len() as int) =~= r1);
        assert(b.skip(1 + s2.len() as int) =~= r2);
    }
}

/// A list of paths as words, read from the front.
proof fn lemma_files_words_unfold(fs: Seq<Seq<char>>)
    requires
        fs.len() > 0,
    ensures
        files_words(fs) == str_words(fs[0]) + files_words(fs.drop_first()),
    decreases fs.len(),
{
    if fs.len() == 1 {
        assert(fs.drop_last() =~= Seq::<Seq<char>>::empty());
        assert(fs.drop_first() =~= Seq::<Seq<char>>::empty());
        assert(fs.last() == fs[0]);
        assert(files_words(fs) =~= str_words(fs[0]) + files_words(fs.drop_first()));
    } else {
        lemma_files_words_unfold(fs.drop_last());
        assert(fs.drop_last()[0] == fs[0]);
        assert(fs.drop_last().drop_first() =~= fs.drop_first().drop_last());
        assert(fs.drop_first().last() == fs.last());
        assert(files_words(fs) == files_words(fs.drop_last()) + str_words(fs.last()));
        assert(files_words(fs.drop_first()) == files_words(fs.drop_first().drop_last())
            + str_words(fs.last()));
        assert(str_words(fs[0]) + (files_words(fs.drop_first().drop_last()) + str_words(
            fs.last(),
        )) =~= (str_words(fs[0]) + files_words(fs.drop_first().drop_last())) + str_words(
            fs.last(),
        ));
    }
}

/// Two path lists of equal, exact length with equal word streams are equal.
proof fn lemma_files_words_inj(fs1: Seq<Seq<char>>, fs2: Seq<Seq<char>>)
    requires
        fs1.len() == fs2.len(),
        forall|i: int| 0 <= i < fs1.len() ==> (#[trigger] fs1[i]).len() <= u64::MAX,
        forall|i: int| 0 <= i < fs2.len() ==> (#[trigger] fs2[i]).len() <= u64::MAX,
        files_words(fs1) == files_words(fs2),
    ensures
        fs1 == fs2,
    decreases fs1.len(),
{
    if fs1.len() == 0 {
        assert(fs1 =~= fs2);
    } else {
        lemma_files_words_unfold(fs1);
        lemma_files_words_unfold(fs2);
        lemma_str_words_parse(
            fs1[0],
            fs2[0],
            files_words(fs1.drop_first()),
            files_words(fs2.drop_first()),
        );
        assert(forall|i: int|
            0 <= i < fs1.drop_first().len() ==> (#[trigger] fs1.drop_first()[i]) == fs1[i + 1]);
        assert(forall|i: int|
            0 <= i < fs2.drop_first().len() ==> (#[trigger] fs2.drop_first()[i]) == fs2[i + 1]);
        lemma_files_words_inj(fs1.drop_first(), fs2.drop_first());
        assert forall|i: int| 0 <= i < fs1.len() implies fs1[i] == fs2[i] by {
            if i > 0 {
                assert(fs1.drop_first()[i - 1] == fs2.drop_first()[i - 1]);
            }
        }
        assert(fs1 =~= fs2);
    }
}

/// The fingerprint's input is injective in the content: any change to any
/// semantic field changes the hashed word stream. Two different contents can
/// therefore share a fingerprint only if the 64-bit mix itself collides on
/// their distinct streams.
pub proof fn lemma_content_words_injective(c1: ContentView, c2: ContentView)
    requires
        bounded_content(c1),
        bounded_content(c2),
        content_words(c1) == content_words(c2),
    ensures
        c1 == c2,
{
    let a = content_words(c1);
    let b = content_words(c2);
    match (c1, c2) {
        (ContentView::Text(t1), ContentView::Text(t2)) => {
            assert(a.skip(1) =~= str_words(t1) + Seq::<u64>::empty());
            assert(b.skip(1) =~= str_words(t2) + Seq::<u64>::empty());
            lemma_str_words_parse(t1, t2, Seq::empty(), Seq::empty());
        },
        (
            ContentView::Image { data: d1, format: f1, width: w1, height: h1 },
            ContentView::Image { data: d2, format: f2, width: w2, height: h2 },
        ) => {
            let tail1 = format_words(f1) + seq![w1 as u64, h1 as u64];
            let tail2 = format_words(f2) + seq![w2 as u64, h2 as u64];
            assert(a.skip(1) =~= str_words(d1) + tail1);
            assert(b.skip(1) =~= str_words(d2) + tail2);
            lemma_str_words_parse(d1, d2, tail1, tail2);
            match (f1, f2) {
                (FormatView::Other(s1), FormatView::Other(s2)) => {
                    assert(tail1.skip(1) =~= str_words(s1) + seq![w1 as u64, h1 as u64]);
                    assert(tail2.skip(1) =~= str_words(s2) + seq![w2 as u64, h2 as u64]);
                    lemma_str_words_parse(
                        s1,
                        s2,
                        seq![w1 as u64, h1 as u64],
                        seq![w2 as u64, h2 as u64],
                    );
                },
                _ => {
                    assert(tail1[0] == tail2[0]);
                    assert(tail1.skip(1) =~= seq![w1 as u64, h1 as u64]);
                    assert(tail2.skip(1) =~= seq![w2 as u64, h2 as u64]);
                },
            }
            assert(w1 == w2 && h1 == h2);
        },
        (
            ContentView::Html { html: m1, plain_text: p1 },
            ContentView::Html { html: m2, plain_text: p2 },
        ) => {
            assert(a.skip(1) =~= str_words(m1) + opt_words(p1));
            assert(b.skip(1) =~= str_words(m2) + opt_words(p2));
            lemma_str_words_parse(m1, m2, opt_words(p1), opt_words(p2));
            match (p1, p2) {
                (Some(q1), Some(q2)) => {
                    assert(opt_words(p1).skip(1) =~= str_words(q1) + Seq::<u64>::empty());
                    assert(opt_words(p2).skip(1) =~= str_words(q2) + Seq::<u64>::empty());
                    lemma_str_words_parse(q1, q2, Seq::empty(), Seq::empty());
                },
                (None, None) => {},
                _ => {
                    assert(opt_words(p1)[0] != opt_words(p2)[0]);
                },
            }
        },
        (ContentView::Files(fs1), ContentView::Files(fs2)) => {
            assert(a[1] == fs1.len() as u64);
            assert(b[1] == fs2.len() as u64);
            assert(fs1.len() == fs2.len());
            assert(files_words(fs1) =~= a.skip(2));
            assert(files_words(fs2) =~= b.skip(2));
            lemma_files_words_inj(fs1, fs2);
        },
        (
            ContentView::Other { content_type: t1, data: d1 },
            ContentView::Other { content_type: t2, data: d2 },
        ) => {
            assert(a.skip(1) =~= str_words(t1) + str_words(d1));
            assert(b.skip(1) =~= str_words(t2) + str_words(d2));
            lemma_str_words_parse(t1, t2, str_words(d1), str_words(d2));
            lemma_str_words_parse(d1, d2, Seq::empty(), Seq::empty());
        },
        _ => {
            assert(a[0] != b[0]);
        },
    }
}

/// Fingerprint determinism: two well-formed entries built from equal content
/// carry equal fingerprints, whatever their identities and capture times.
pub proof fn lemma_fingerprint_deterministic(a: ItemView, b: ItemView)
    requires
        a.wf(),
        b.wf(),
        a.content == b.content,
    ensures
        a.content_hash == b.content_hash,
{
}

/// Relies on `uuid::Uuid::new_v4` and its `Display` rendering: the hyphenated
/// form is always 36 characters. Nothing is promised about the value itself.
#[verifier::external_body]
fn new_entry_id() -> (r: String)
    ensures
        r@.len() == 36,
{
    uuid::Uuid::new_v4().to_string()
}

/// Relies on `chrono::Utc::now`: the capture clock, in whole seconds since
/// the Unix epoch. Nothing is promised of the value.
#[verifier::external_body]
pub(crate) fn now_timestamp() -> i64 {
    chrono::Utc::now().timestamp()
}

/// Relies on `chrono` date formatting in the machine's local time zone:
/// `None` when the timestamp is out of chrono's range, otherwise the
/// `%Y-%m-%d %H:%M:%S` rendering, which is at least 19 characters.
#[verifier::external_body]
fn format_local_timestamp(ts: i64) -> (r: Option<String>)
    ensures
        r matches Some(s) ==> s@.len() >= 19,
{
    match chrono::TimeZone::timestamp_opt(&chrono::Local, ts, 0) {
        chrono::LocalResult::Single(dt) => Some(dt.format("%Y-%m-%d %H:%M:%S").to_string()),
        _ => None,
    }
}

/// The standard base64 encoding (with padding) of a byte sequence, as
/// `base64`'s `STANDARD` engine computes it.
pub uninterp spec fn b64_of(bytes: Seq<u8>) -> Seq<char>;

/// Relies on `base64::engine::Engine::encode` with the `STANDARD` engine: a
/// pure function of the bytes, four output characters for every three input
/// bytes, rounded up, and decoding inverts it. The length bound keeps the
/// engine's internal size computation from overflowing.
#[verifier::external_body]
pub(crate) fn b64_encode(data: &Vec<u8>) -> (r: String)
    requires
        data@.len() <= usize::MAX / 2,
    ensures
        r@ == b64_of(data@),
        r@.len() == 4 * ((data@.len() + 2) / 3),
        b64_decoded_of(r@) == Some(data@),
{
    base64::engine::general_purpose::STANDARD.encode(data.as_slice())
}

/// What the `STANDARD` engine's decode makes of a string: the decoded bytes,
/// or `None` where it refuses the input. A pure function of the string.
pub uninterp spec fn b64_decoded_of(s: Seq<char>) -> Option<Seq<u8>>;

/// Relies on `base64::engine::Engine::decode` with the `STANDARD` engine:
/// deterministic in the input, and decoding inverts encoding.
#[verifier::external_body]
pub(crate) fn b64_decode(s: &str) -> (r: Result<Vec<u8>, ()>)
    ensures
        r is Ok <==> b64_decoded_of(s@) is Some,
        r matches Ok(v) ==> Some(v@) == b64_decoded_of(s@),
        forall|b: Seq<u8>| s@ == #[trigger] b64_of(b) ==> r is Ok && r->Ok_0@ == b,
{
    match base64::engine::general_purpose::STANDARD.decode(s.as_bytes()) {
        Ok(v) => Ok(v),
        Err(_) => Err(()),
    }
}

/// The display label of an image format.
pub open spec fn format_label_of(f: FormatView) -> Seq<char> {
    match f {
        FormatView::Png => "Png"@,
        FormatView::Jpeg => "Jpeg"@,
        FormatView::Bmp => "Bmp"@,
        FormatView::Other(s) => s,
    }
}

/// The variant's display name.
pub open spec fn type_name_of(c: ContentView) -> Seq<char> {
    match c {
        ContentView::Text(_) => "Text"@,
        ContentView::Image { .. } => "Image"@,
        ContentView::Html { .. } => "HTML"@,
        ContentView::Files(_) => "Files"@,
        ContentView::Other { .. } => "Binary"@,
    }
}

/// The lossy human-readable rendering of a content value.
pub open spec fn display_of(c: ContentView) -> Seq<char> {
    match c {
        ContentView::Text(t) => t,
        ContentView::Image { format, width, height, .. } => dec_of(width as nat) + "x"@ + dec_of(
            height as nat,
        ) + " "@ + format_label_of(format) + " image"@,
        ContentView::Html { html, plain_text } => match plain_text {
            Some(p) => p,
            None => html,
        },
        ContentView::Files(fs) => if fs.len() == 1 {
            "File: "@ + fs[0]
        } else {
            dec_of(fs.len()) + " files: "@ + join_with(fs, ", "@)
        },
        ContentView::Other { content_type, .. } => "Binary data ("@ + content_type + ")"@,
    }
}

/// The size rendered as bytes, or as tenths of KB or MB.
pub open spec fn size_label_of(size: int) -> Seq<char> {
    if size < 1024 {
        dec_of(size as nat) + " B"@
    } else if size < 1048576 {
        dec_of((size * 10 / 1024 / 10) as nat) + seq![
            '.',
            digit_char(size * 10 / 1024 % 10),
        ] + " KB"@
    } else {
        dec_of((size * 10 / 1048576 / 10) as nat) + seq![
            '.',
            digit_char(size * 10 / 1048576 % 10),
        ] + " MB"@
    }
}

/// Whether a character is Unicode whitespace, as `char::is_whitespace`
/// decides it: a pure character property.
pub uninterp spec fn is_unicode_whitespace(c: char) -> bool;

/// Relies on `char::is_whitespace`: a pure function of the character; the
/// ASCII whitespace characters are among the whitespace.
pub assume_specification[ char::is_whitespace ](c: char) -> (r: bool)
    ensures
        r == is_unicode_whitespace(c),
        is_space_char(c) ==> r,
;

/// A character a plain numeric text is made of: an ASCII digit, whitespace,
/// a point or a minus sign.
pub open spec fn is_digitish(c: char) -> bool {
    (48 <= c as u32 && c as u32 <= 57) || is_unicode_whitespace(c) || c == '.' || c == '-'
}

/// Whether the text consists of numeric characters alone.
pub open spec fn numericish(s: Seq<char>) -> bool {
    forall|i: int| 0 <= i < s.len() ==> is_digitish(#[trigger] s[i])
}

fn all_numericish(v: &Vec<char>) -> (r: bool)
    ensures
        r == numericish(v@),
{
    let mut i: usize = 0;
    while i < v.len()
        invariant
            i <= v@.len(),
            forall|j: int| 0 <= j < i ==> is_digitish(#[trigger] v@[j]),
        decreases v@.len() - i,
    {
        let c = v[i];
        let code = c as u32;
        let ok = (48 <= code && code <= 57) || c.is_whitespace() || c == '.' || c == '-';
        if !ok {
            return false;
        }
        i += 1;
    }
    true
}

/// How many lines the text consists of, as `str::lines` counts them: one
/// more than the line breaks, unless the text ends with one or is empty.
pub open spec fn line_count(s: Seq<char>) -> nat {
    if s.len() == 0 {
        0
    } else {
        count_char(s, '\n') + if s.last() == '\n' {
            0nat
        } else {
            1nat
        }
    }
}

/// The preview annotation: a content-sniffing heuristic label.
pub open spec fn analyze_of(c: ContentView) -> Seq<char> {
    match c {
        ContentView::Text(t) => if first_nonspace(t) == Some('{') && last_nonspace(t) == Some(
            '}',
        ) {
            "JSON"@
        } else if first_nonspace(t) == Some('<') && last_nonspace(t) == Some('>') {
            "HTML/XML"@
        } else if contains_seq(t, "http://"@) || contains_seq(t, "https://"@) {
            "URL/Link"@
        } else if line_count(t) > 10 {
            "Multi-line"@
        } else if numericish(t) {
            "Numeric"@
        } else if !is_ascii_chars(t) {
            "Unicode/Emoji"@
        } else {
            "Text"@
        },
        ContentView::Image { width, height, .. } => if width > 1920 || height > 1080 {
            "Large Image"@
        } else {
            "Image"@
        },
        ContentView::Html { .. } => "Rich Text"@,
        ContentView::Files(fs) => if fs.len() == 1 {
            "Single File"@
        } else {
            "Multiple Files"@
        },
        ContentView::Other { .. } => "Binary Data"@,
    }
}

/// The tagged preview of a content value: when the display form's byte
/// length exceeds `max`, it is cut to at most `max` characters with a size
/// note appended.
pub open spec fn preview_of(c: ContentView, max: int) -> Seq<char> {
    let d = display_of(c);
    if bytes_len(d) <= max {
        "["@ + type_name_of(c) + "] "@ + d
    } else {
        "["@ + type_name_of(c) + "] "@ + d.take(vstd::math::min(max, d.len() as int)) + " ["@
            + size_label_of(clamped_size(c) as int) + "...]"@
    }
}

/// The tagged preview of a content value; a truncated one also names the
/// kind of content.
pub open spec fn smart_preview_of(c: ContentView, max: int) -> Seq<char> {
    let d = display_of(c);
    if bytes_len(d) <= max {
        "["@ + type_name_of(c) + "] "@ + d
    } else {
        "["@ + type_name_of(c) + "] "@ + d.take(vstd::math::min(max, d.len() as int)) + " ["@
            + analyze_of(c) + ", "@ + size_label_of(clamped_size(c) as int) + "...]"@
    }
}

/// One stored history entry: an immutable captured payload with its identity,
/// capture time, and content fingerprint.
#[derive(Debug)]
pub struct ClipboardItem {
    pub id: String,
    pub content: ClipboardContentType,
    pub timestamp: i64,
    pub content_hash: u64,
}

/// The mathematical value of a [`ClipboardItem`].
pub struct ItemView {
    pub id: Seq<char>,
    pub content: ContentView,
    pub timestamp: i64,
    pub content_hash: u64,
}

impl ItemView {
    /// A well-formed entry carries the fingerprint of its own content.
    pub open spec fn wf(self) -> bool {
        self.content_hash == fingerprint_of(self.content)
    }
}

impl View for ClipboardItem {
    type V = ItemView;

    open spec fn view(&self) -> ItemView {
        ItemView {
            id: self.id@,
            content: self.content@,
            timestamp: self.timestamp,
            content_hash: self.content_hash,
        }
    }
}

impl Clone for ClipboardItem {
    fn clone(&self) -> (r: Self)
        ensures
            r@ == self@,
    {
        ClipboardItem {
            id: self.id.clone(),
            content: self.content.clone(),
            timestamp: self.timestamp,
            content_hash: self.content_hash,
        }
    }
}

impl ClipboardItem {
    /// A well-formed entry carries the fingerprint of its own content.
    pub open spec fn wf(&self) -> bool {
        self@.wf()
    }

    /// Builds an entry from a captured payload: a fresh identifier, the
    /// capture time, and the deterministic content fingerprint, computed
    /// immediately and permanently.
    pub fn new(content: ClipboardContentType) -> (r: Self)
        ensures
            r@.content == content@,
            r@.content_hash == fingerprint_of(content@),
            r@.id.len() == 36,
            r.wf(),
    {
        let content_hash = content_fingerprint(&content);
        ClipboardItem { id: new_entry_id(), content, timestamp: now_timestamp(), content_hash }
    }

    /// Builds a plain-text entry.
    pub fn new_text(content: String) -> (r: Self)
        ensures
            r@.content == ContentView::Text(content@),
            r@.id.len() == 36,
            r.wf(),
    {
        Self::new(ClipboardContentType::Text(content))
    }

    /// Builds an image entry: the raw bytes are stored base64-encoded.
    pub fn new_image(data: Vec<u8>, format: ImageFormat, width: u32, height: u32) -> (r: Self)
        requires
            data@.len() <= usize::MAX / 2,
        ensures
            r@.content == (ContentView::Image {
                data: b64_of(data@),
                format: format@,
                width,
                height,
            }),
            b64_decoded_of(b64_of(data@)) == Some(data@),
            r@.id.len() == 36,
            r.wf(),
    {
        let encoded_data = b64_encode(&data);
        Self::new(ClipboardContentType::Image { data: encoded_data, format, width, height })
    }

    /// Builds a rich-text entry, with an optional plain-text fallback.
    pub fn new_html(html: String, plain_text: Option<String>) -> (r: Self)
        ensures
            r@.content == (ContentView::Html {
                html: html@,
                plain_text: match plain_text {
                    Some(p) => Some(p@),
                    None => None,
                },
            }),
            r@.id.len() == 36,
            r.wf(),
    {
        Self::new(ClipboardContentType::Html { html, plain_text })
    }

    /// Builds a file-list entry.
    pub fn new_files(files: Vec<String>) -> (r: Self)
        ensures
            r@.content == ContentView::Files(files@.map_values(|f: String| f@)),
            r@.id.len() == 36,
            r.wf(),
    {
        Self::new(ClipboardContentType::Files(files))
    }

    /// Builds an entry for any other payload; `data` is already a text-safe
    /// encoding of the raw bytes.
    pub fn new_other(content_type: String, data: String) -> (r: Self)
        ensures
            r@.content == (ContentView::Other { content_type: content_type@, data: data@ }),
            r@.id.len() == 36,
            r.wf(),
    {
        Self::new(ClipboardContentType::Other { content_type, data })
    }

    /// The estimated size in bytes of this entry's payload.
    pub fn get_size_bytes(&self) -> (r: usize)
        ensures
            r == clamped_size(self@.content),
    {
        content_size_exec(&self.content)
    }

    /// A preview with the default length limit.
    pub fn get_preview(&self) -> (r: String)
        ensures
            r@ == smart_preview_of(self@.content, 100),
    {
        self.smart_preview(100)
    }

    /// The variant's name, for display.
    pub fn content_type_name(&self) -> (r: &'static str)
        ensures
            r@ == type_name_of(self@.content),
    {
        match &self.content {
            ClipboardContentType::Text(_) => "Text",
            ClipboardContentType::Image { .. } => "Image",
            ClipboardContentType::Html { .. } => "HTML",
            ClipboardContentType::Files(_) => "Files",
            ClipboardContentType::Other { .. } => "Binary",
        }
    }

    /// A tagged preview: the display form, truncated to `max_chars`
    /// characters with a size note when it is longer.
    pub fn preview(&self, max_chars: usize) -> (r: String)
        ensures
            r@ == preview_of(self@.content, max_chars as int),
    {
        let content_str = self.display_content();
        let n_bytes = content_str.as_str().len();
        let mut r = String::new();
        r.append("[");
        r.append(self.content_type_name());
        r.append("] ");
        if n_bytes <= max_chars {
            r.append(content_str.as_str());
        } else {
            let n_chars = content_str.as_str().unicode_len();
            let cut = if max_chars < n_chars {
                max_chars
            } else {
                n_chars
            };
            let truncated = content_str.as_str().substring_char(0, cut);
            r.append(truncated);
            r.append(" [");
            r.append(self.format_content_size().as_str());
            r.append("...]");
        }
        proof {
            assert(r@ =~= preview_of(self@.content, max_chars as int));
        }
        r
    }

    /// A tagged preview that also names the kind of content when the display
    /// form had to be truncated.
    pub fn smart_preview(&self, max_chars: usize) -> (r: String)
        ensures
            r@ == smart_preview_of(self@.content, max_chars as int),
    {
        let content_info = self.analyze_content();
        let content_str = self.display_content();
        let n_bytes = content_str.as_str().len();
        let mut r = String::new();
        r.append("[");
        r.append(self.content_type_name());
        r.append("] ");
        if n_bytes <= max_chars {
            r.append(content_str.as_str());
        } else {
            let n_chars = content_str.as_str().unicode_len();
            let cut = if max_chars < n_chars {
                max_chars
            } else {
                n_chars
            };
            let truncated = content_str.as_str().substring_char(0, cut);
            r.append(truncated);
            r.append(" [");
            r.append(content_info);
            r.append(", ");
            r.append(self.format_content_size().as_str());
            r.append("...]");
        }
        proof {
            assert(r@ =~= smart_preview_of(self@.content, max_chars as int));
        }
        r
    }

    /// The lossy human-readable rendering of the payload.
    pub fn display_content(&self) -> (r: String)
        ensures
            r@ == display_of(self@.content),
    {
        match &self.content {
            ClipboardContentType::Text(text) => text.clone(),
            ClipboardContentType::Image { width, height, format, .. } => {
                let mut r = u64_string(*width as u64);
                r.append("x");
                r.append(u64_string(*height as u64).as_str());
                r.append(" ");
                match format {
                    ImageFormat::Png => r.append("Png"),
                    ImageFormat::Jpeg => r.append("Jpeg"),
                    ImageFormat::Bmp => r.append("Bmp"),
                    ImageFormat::Other(s) => r.append(s.as_str()),
                }
                r.append(" image");
                proof {
                    assert(r@ =~= display_of(self@.content));
                }
                r
            },
            ClipboardContentType::Html { plain_text, html } => {
                match plain_text {
                    Some(plain) => plain.clone(),
                    None => html.clone(),
                }
            },
            ClipboardContentType::Files(files) => {
                if files.len() == 1 {
                    let mut r = String::new();
                    r.append("File: ");
                    r.append(files[0].as_str());
                    proof {
                        assert(r@ =~= display_of(self@.content));
                    }
                    r
                } else {
                    let mut r = u64_string(files.len() as u64);
                    r.append(" files: ");
                    r.append(join_strings(files, ", ").as_str());
                    proof {
                        assert(r@ =~= display_of(self@.content));
                    }
                    r
                }
            },
            ClipboardContentType::Other { content_type, .. } => {
                let mut r = String::new();
                r.append("Binary data (");
                r.append(content_type.as_str());
                r.append(")");
                proof {
                    assert(r@ =~= display_of(self@.content));
                }
                r
            },
        }
    }

    /// The estimated size rendered as bytes, or as tenths of KB or MB.
    pub fn format_content_size(&self) -> (r: String)
        ensures
            r@ == size_label_of(clamped_size(self@.content) as int),
    {
        let size = self.get_size_bytes();
        if size < 1024 {
            let mut r = u64_string(size as u64);
            r.append(" B");
            r
        } else if size < 1048576 {
            let mut r = crate::text::tenths_string((size * 10 / 1024) as u64);
            r.append(" KB");
            r
        } else {
            let wide: u128 = (size as u128) * 10 / (1024 * 1024);
            let mut r = crate::text::tenths_string(wide as u64);
            r.append(" MB");
            r
        }
    }

    /// A content-sniffing heuristic used only for preview annotation.
    pub fn analyze_content(&self) -> (r: &'static str)
        ensures
            r@ == analyze_of(self@.content),
    {
        match &self.content {
            ClipboardContentType::Text(content) => {
                let v = chars_of(content.as_str());
                let first = first_nonspace_exec(&v);
                let last = last_nonspace_exec(&v);
                let braced = (match first {
                    Some(c) => c == '{',
                    None => false,
                }) && (match last {
                    Some(c) => c == '}',
                    None => false,
                });
                let angled = (match first {
                    Some(c) => c == '<',
                    None => false,
                }) && (match last {
                    Some(c) => c == '>',
                    None => false,
                });
                let breaks = count_char_exec(&v, '\n');
                let multi_line = breaks > 10 || (breaks == 10 && v.len() > 0 && v[v.len() - 1]
                    != '\n');
                if braced {
                    "JSON"
                } else if angled {
                    "HTML/XML"
                } else if contains_chars(&v, &chars_of("http://")) || contains_chars(
                    &v,
                    &chars_of("https://"),
                ) {
                    "URL/Link"
                } else if multi_line {
                    "Multi-line"
                } else if all_numericish(&v) {
                    "Numeric"
                } else if !content.as_str().is_ascii() {
                    "Unicode/Emoji"
                } else {
                    "Text"
                }
            },
            ClipboardContentType::Image { width, height, .. } => {
                if *width > 1920 || *height > 1080 {
                    "Large Image"
                } else {
                    "Image"
                }
            },
            ClipboardContentType::Html { .. } => "Rich Text",
            ClipboardContentType::Files(files) => {
                if files.len() == 1 {
                    "Single File"
                } else {
                    "Multiple Files"
                }
            },
            ClipboardContentType::Other { .. } => "Binary Data",
        }
    }

    /// The capture time rendered in the machine's local time zone; a plain
    /// `ts:` rendering of the raw timestamp when it is out of range.
    pub fn formatted_timestamp(&self) -> (r: String)
        ensures
            r@.len() >= 19 || r@ == "ts:"@ + dec_of_int(self@.timestamp as int),
    {
        match format_local_timestamp(self.timestamp) {
            Some(s) => s,
            None => {
                let mut r = String::new();
                r.append("ts:");
                r.append(i64_string(self.timestamp).as_str());
                proof {
                    assert(r@ =~= "ts:"@ + dec_of_int(self@.timestamp as int));
                }
                r
            },
        }
    }
}

} // verus!
