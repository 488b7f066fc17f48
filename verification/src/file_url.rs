//! `file:` URLs for paths of the virtual filesystem, built and read component by
//! component with the `url` crate, so that a path and its URL agree on every host.
use vstd::prelude::*;
use vstd::string::*;

use crate::path::{join_spec, normalize_segments, normalized_segments, same_chars};
use crate::text::{chars_of, string_of};

verus! {

/// The serialisation `url::Url::parse` gives the text, or `None` when it refuses it.
pub uninterp spec fn url_parsed(text: Seq<char>) -> Option<Seq<char>>;

/// The serialisation after `path_segments_mut().clear()` on the parsed URL, or `None` when the
/// URL cannot be parsed or cannot be a base.
pub uninterp spec fn path_cleared(url: Seq<char>) -> Option<Seq<char>>;

/// The serialisation after `path_segments_mut().push(segment)` on the parsed URL, or `None`
/// when the URL cannot be parsed or cannot be a base.
pub uninterp spec fn segment_pushed(url: Seq<char>, segment: Seq<char>) -> Option<Seq<char>>;

/// The scheme `url::Url::scheme` reads from the parsed URL, or `None` when it cannot be parsed.
pub uninterp spec fn url_scheme(url: Seq<char>) -> Option<Seq<char>>;

/// What `url::Url::host_str` reads from the parsed URL, or `None` when it cannot be parsed.
pub uninterp spec fn url_host(url: Seq<char>) -> Option<Option<Seq<char>>>;

/// What `url::Url::path_segments` yields for the parsed URL, or `None` when it cannot be parsed.
pub uninterp spec fn url_path_segments(url: Seq<char>) -> Option<Option<Seq<Seq<char>>>>;

/// The text `percent_decode_str(segment).decode_utf8()` gives, or `None` when the decoded
/// bytes are not UTF-8.
pub uninterp spec fn decoded_segment(segment: Seq<char>) -> Option<Seq<char>>;

/// `url::Url::parse`: the serialisation of the parsed URL (a function of the text).
#[verifier::external_body]
fn parse_url(text: &str) -> (r: Option<String>)
    ensures
        match r {
            Some(s) => url_parsed(text@) == Some(s@),
            None => url_parsed(text@) is None,
        },
{
    url::Url::parse(text).ok().map(|u| u.as_str().to_owned())
}

/// `PathSegmentsMut::clear` on the URL `url` serialises.
#[verifier::external_body]
fn clear_path(url: &str) -> (r: Option<String>)
    ensures
        match r {
            Some(s) => path_cleared(url@) == Some(s@),
            None => path_cleared(url@) is None,
        },
{
    let mut parsed = url::Url::parse(url).ok()?;
    parsed.path_segments_mut().ok()?.clear();
    Some(parsed.as_str().to_owned())
}

/// `PathSegmentsMut::push` of one segment on the URL `url` serialises.
#[verifier::external_body]
fn push_segment(url: &str, segment: &str) -> (r: Option<String>)
    ensures
        match r {
            Some(s) => segment_pushed(url@, segment@) == Some(s@),
            None => segment_pushed(url@, segment@) is None,
        },
{
    let mut parsed = url::Url::parse(url).ok()?;
    parsed.path_segments_mut().ok()?.push(segment);
    Some(parsed.as_str().to_owned())
}

/// `url::Url::scheme` of the URL `url` serialises.
#[verifier::external_body]
fn scheme_of(url: &str) -> (r: Option<String>)
    ensures
        match r {
            Some(s) => url_scheme(url@) == Some(s@),
            None => url_scheme(url@) is None,
        },
{
    url::Url::parse(url).ok().map(|u| u.scheme().to_owned())
}

/// `url::Url::host_str` of the URL `url` serialises.
#[verifier::external_body]
fn host_of(url: &str) -> (r: Option<Option<String>>)
    ensures
        match r {
            Some(Some(h)) => url_host(url@) == Some(Some(h@)),
            Some(None) => url_host(url@) == Some(None::<Seq<char>>),
            None => url_host(url@) is None,
        },
{
    url::Url::parse(url).ok().map(|u| u.host_str().map(|h| h.to_owned()))
}

/// `url::Url::path_segments` of the URL `url` serialises, collected.
#[verifier::external_body]
fn path_segments_of(url: &str) -> (r: Option<Option<Vec<String>>>)
    ensures
        match r {
            Some(Some(v)) => url_path_segments(url@) == Some(Some(v@.map_values(|s: String| s@))),
            Some(None) => url_path_segments(url@) == Some(None::<Seq<Seq<char>>>),
            None => url_path_segments(url@) is None,
        },
{
    url::Url::parse(url).ok().map(|u| u.path_segments().map(|it| it.map(|s| s.to_owned()).collect()))
}

/// `percent_encoding::percent_decode_str(..).decode_utf8()`.
#[verifier::external_body]
fn decode_segment(segment: &str) -> (r: Option<String>)
    ensures
        match r {
            Some(s) => decoded_segment(segment@) == Some(s@),
            None => decoded_segment(segment@) is None,
        },
{
    percent_encoding::percent_decode_str(segment).decode_utf8().ok().map(|text| text.into_owned())
}

/// A URL, held as its serialisation.
#[derive(Debug, Clone)]
pub struct FileUrl {
    serialization: String,
}

impl View for FileUrl {
    type V = Seq<char>;

    closed spec fn view(&self) -> Seq<char> {
        self.serialization@
    }
}

pub open spec fn file_root_text() -> Seq<char> {
    seq!['f', 'i', 'l', 'e', ':', '/', '/', '/']
}

/// The serialisation after pushing `segments`, in order, onto `start`.
pub open spec fn pushed_all(start: Option<Seq<char>>, segments: Seq<Seq<char>>) -> Option<Seq<char>>
    decreases segments.len(),
{
    if segments.len() == 0 {
        start
    } else {
        match pushed_all(start, segments.drop_last()) {
            None => None,
            Some(u) => segment_pushed(u, segments.last()),
        }
    }
}

/// The `file:` URL of a path: `file:///` with its path cleared, then each normalised
/// component pushed, then an empty segment for a directory.
pub open spec fn file_url_spec(path: Seq<char>, directory: bool) -> Option<Seq<char>> {
    let segs = normalized_segments(path);
    let all = if directory {
        segs.push(Seq::<char>::empty())
    } else {
        segs
    };
    match url_parsed(file_root_text()) {
        None => None,
        Some(root) => pushed_all(path_cleared(root), all),
    }
}

/// The path the decoded segments name, joined onto `acc` in order; empty segments are
/// skipped, and a segment that does not decode to text fails the whole.
pub open spec fn decode_join(acc: Seq<char>, segments: Seq<Seq<char>>) -> Option<Seq<char>>
    decreases segments.len(),
{
    if segments.len() == 0 {
        Some(acc)
    } else if segments[0].len() == 0 {
        decode_join(acc, segments.drop_first())
    } else {
        match decoded_segment(segments[0]) {
            None => None,
            Some(text) => decode_join(join_spec(acc, text), segments.drop_first()),
        }
    }
}

pub open spec fn localhost_text() -> Seq<char> {
    seq!['l', 'o', 'c', 'a', 'l', 'h', 'o', 's', 't']
}

/// The path a URL names: only a `file` URL with no host, an empty host or `localhost`, whose
/// path segments all decode to text, names one.
pub open spec fn file_path_spec(url: Seq<char>) -> Option<Seq<char>> {
    match (url_scheme(url), url_host(url), url_path_segments(url)) {
        (Some(scheme), Some(host), Some(Some(segments))) => if scheme != seq!['f', 'i', 'l', 'e'] {
            None
        } else if host matches Some(h) && h.len() > 0 && h != localhost_text() {
            None
        } else {
            decode_join(seq!['/'], segments)
        },
        _ => None,
    }
}

fn text_is(s: &str, literal: &str) -> (r: bool)
    ensures
        r == (s@ == literal@),
{
    same_chars(&chars_of(s), &chars_of(literal))
}

fn build(path: &str, directory: bool) -> (r: Result<FileUrl, ()>)
    ensures
        match r {
            Ok(u) => file_url_spec(path@, directory) == Some(u@),
            Err(_) => file_url_spec(path@, directory) is None,
        },
{
    let segs = normalize_segments(path);
    let ghost names = normalized_segments(path@);
    let ghost all = if directory {
        names.push(Seq::<char>::empty())
    } else {
        names
    };
    proof {
        reveal_strlit("file:///");
        assert("file:///"@ =~= file_root_text());
    }
    let root = match parse_url("file:///") {
        Some(root) => root,
        None => return Err(()),
    };
    let mut current = match clear_path(root.as_str()) {
        Some(cleared) => cleared,
        None => {
            proof {
                assert forall|k: int| 0 <= k <= all.len() implies pushed_all(None, #[trigger] all.take(k)) is None by {
                    lemma_pushed_none(all.take(k));
                }
                assert(all.take(all.len() as int) =~= all);
            }
            return Err(());
        },
    };
    let mut i: usize = 0;
    assert(all.take(0) =~= Seq::<Seq<char>>::empty());
    while i < segs.len()
        invariant
            i <= segs.len(),
            names == normalized_segments(path@),
            names == segs.deep_view(),
            names.len() == segs.len(),
            all == (if directory {
                names.push(Seq::<char>::empty())
            } else {
                names
            }),
            url_parsed(file_root_text()) == Some(root@),
            pushed_all(path_cleared(root@), names.take(i as int)) == Some(current@),
        decreases segs.len() - i,
    {
        let seg = string_of(&segs[i]);
        assert(seg@ == names[i as int]);
        match push_segment(current.as_str(), seg.as_str()) {
            Some(next) => {
                assert(names.take(i + 1).drop_last() =~= names.take(i as int));
                current = next;
            },
            None => {
                proof {
                    assert(names.take(i + 1).drop_last() =~= names.take(i as int));
                    assert(all.take(i + 1) =~= names.take(i + 1));
                    lemma_pushed_stays_none(path_cleared(root@), all, i + 1);
                }
                return Err(());
            },
        }
        i = i + 1;
    }
    assert(names.take(names.len() as int) =~= names);
    if directory {
        proof {
            reveal_strlit("");
            assert(""@ =~= Seq::<char>::empty());
            assert(all.drop_last() =~= names);
        }
        match push_segment(current.as_str(), "") {
            Some(next) => {
                current = next;
            },
            None => {
                return Err(());
            },
        }
    } else {
        assert(all == names);
    }
    Ok(FileUrl { serialization: current })
}

proof fn lemma_pushed_none(segments: Seq<Seq<char>>)
    ensures
        pushed_all(None, segments) is None,
    decreases segments.len(),
{
    if segments.len() > 0 {
        lemma_pushed_none(segments.drop_last());
    }
}

/// Once a push fails, pushing more fails too.
proof fn lemma_pushed_stays_none(start: Option<Seq<char>>, segments: Seq<Seq<char>>, k: int)
    requires
        0 <= k <= segments.len(),
        pushed_all(start, segments.take(k)) is None,
    ensures
        pushed_all(start, segments) is None,
    decreases segments.len() - k,
{
    if k < segments.len() {
        assert(segments.take(k + 1).drop_last() =~= segments.take(k));
        lemma_pushed_stays_none(start, segments, k + 1);
    } else {
        assert(segments.take(k) =~= segments);
    }
}

impl FileUrl {
    /// Parses a URL with the `url` crate.
    pub fn parse(text: &str) -> (r: Result<FileUrl, ()>)
        ensures
            match r {
                Ok(u) => url_parsed(text@) == Some(u@),
                Err(_) => url_parsed(text@) is None,
            },
    {
        match parse_url(text) {
            Some(s) => Ok(FileUrl { serialization: s }),
            None => Err(()),
        }
    }

    /// The serialisation.
    pub fn as_str(&self) -> (s: &str)
        ensures
            s@ == self@,
    {
        self.serialization.as_str()
    }
}

/// Conversions between paths of the virtual filesystem and `file:` URLs.
pub trait UrlFilePathExt: Sized {
    fn from_file_path(path: &str) -> Result<Self, ()>;

    fn from_directory_path(path: &str) -> Result<Self, ()>;

    fn to_file_path(&self) -> Result<String, ()>;
}

impl UrlFilePathExt for FileUrl {
    /// The `file:` URL of the normalised path.
    fn from_file_path(path: &str) -> (r: Result<FileUrl, ()>)
        ensures
            match r {
                Ok(u) => file_url_spec(path@, false) == Some(u@),
                Err(_) => file_url_spec(path@, false) is None,
            },
    {
        build(path, false)
    }

    /// The `file:` URL of the normalised path, with a trailing slash.
    fn from_directory_path(path: &str) -> (r: Result<FileUrl, ()>)
        ensures
            match r {
                Ok(u) => file_url_spec(path@, true) == Some(u@),
                Err(_) => file_url_spec(path@, true) is None,
            },
    {
        build(path, true)
    }

    /// The path a local `file` URL names, its segments percent-decoded.
    fn to_file_path(&self) -> (r: Result<String, ()>)
        ensures
            match r {
                Ok(p) => file_path_spec(self@) == Some(p@),
                Err(_) => file_path_spec(self@) is None,
            },
    {
        let text = self.serialization.as_str();
        let scheme = match scheme_of(text) {
            Some(s) => s,
            None => return Err(()),
        };
        let host = match host_of(text) {
            Some(h) => h,
            None => return Err(()),
        };
        let segments = match path_segments_of(text) {
            Some(Some(v)) => v,
            _ => return Err(()),
        };
        proof {
            reveal_strlit("file");
            reveal_strlit("localhost");
            assert("file"@ =~= seq!['f', 'i', 'l', 'e']);
            assert("localhost"@ =~= localhost_text());
        }
        if !text_is(scheme.as_str(), "file") {
            return Err(());
        }
        match &host {
            Some(h) => {
                if h.as_str().unicode_len() != 0 && !text_is(h.as_str(), "localhost") {
                    return Err(());
                }
            },
            None => {},
        }
        let ghost all = segments@.map_values(|s: String| s@);
        let mut decoded = String::from_str("/");
        proof {
            reveal_strlit("/");
            assert(decoded@ =~= seq!['/']);
            assert(all.skip(0) =~= all);
        }
        let mut i: usize = 0;
        while i < segments.len()
            invariant
                i <= segments.len(),
                all == segments@.map_values(|s: String| s@),
                file_path_spec(self@) == decode_join(decoded@, all.skip(i as int)),
            decreases segments.len() - i,
        {
            let segment = segments[i].as_str();
            assert(all.skip(i as int)[0] == segment@);
            assert(all.skip(i as int).drop_first() =~= all.skip(i + 1));
            if segment.unicode_len() != 0 {
                match decode_segment(segment) {
                    Some(t) => {
                        decoded = crate::path::join(decoded.as_str(), t.as_str());
                    },
                    None => return Err(()),
                }
            }
            i = i + 1;
        }
        Ok(decoded)
    }
}

} // verus!
