//! The request for one download: the link, the number of parts, and the
//! name of the file that the link leads to.

use vstd::prelude::*;

use crate::error::DownloadError;

verus! {

/// The path segments of the absolute URL that `link` is written as: what
/// `Url::parse` followed by `Url::path_segments` gives for it. `None` where
/// the link does not parse, or parses to a URL that has no path segments.
pub uninterp spec fn url_path_segments(link: Seq<char>) -> Option<Seq<Seq<char>>>;

/// The segments as plain text.
pub open spec fn segment_texts(segments: Option<Vec<String>>) -> Option<Seq<Seq<char>>> {
    match segments {
        Some(list) => Some(list@.map_values(|segment: String| segment@)),
        None => None,
    }
}

/// Parses `link` with `reqwest::Url::parse` and splits the path of the URL
/// with `Url::path_segments`, each segment copied out as a `String`.
///
/// Nothing is proved of the two calls. The contract only gives their result
/// its name: the same link always has the same segments.
#[verifier::external_body]
fn parse_path_segments(link: &str) -> (segments: Option<Vec<String>>)
    ensures
        segment_texts(segments) == url_path_segments(link@),
{
    match reqwest::Url::parse(link) {
        Ok(url) => url.path_segments().map(|segments| segments.map(String::from).collect()),
        Err(_) => None,
    }
}

/// The file name that a list of path segments leads to: the last segment.
pub open spec fn file_name_of(segments: Option<Seq<Seq<char>>>) -> Option<Seq<char>> {
    match segments {
        Some(list) => if list.len() > 0 {
            Some(list.last())
        } else {
            None
        },
        None => None,
    }
}

/// The last of the path segments, where there is one.
pub fn file_name_from_segments(segments: &Option<Vec<String>>) -> (name: Option<String>)
    ensures
        match file_name_of(segment_texts(*segments)) {
            Some(text) => name matches Some(found) && found@ == text,
            None => name is None,
        },
{
    match segments {
        Some(list) => {
            if list.len() > 0 {
                Some(list[list.len() - 1].clone())
            } else {
                None
            }
        },
        None => None,
    }
}

/// A link to download and the number of parts to fetch it in.
///
/// A value of this type always has at least one part, and its file name is
/// the last path segment of its link.
#[derive(Debug)]
pub struct DownloadRequest {
    url: String,
    part_count: i64,
    file_name: String,
}

impl Clone for DownloadRequest {
    fn clone(&self) -> (copy: Self)
        ensures
            copy == *self,
    {
        proof {
            use_type_invariant(self);
        }
        DownloadRequest {
            url: self.url.clone(),
            part_count: self.part_count,
            file_name: self.file_name.clone(),
        }
    }
}

impl DownloadRequest {
    /// The link as given.
    pub closed spec fn spec_url(&self) -> Seq<char> {
        self.url@
    }

    /// The number of parts.
    pub closed spec fn spec_part_count(&self) -> int {
        self.part_count as int
    }

    /// The name of the file to write.
    pub closed spec fn spec_file_name(&self) -> Seq<char> {
        self.file_name@
    }

    #[verifier::type_invariant]
    spec fn well_formed(&self) -> bool {
        &&& self.part_count >= 1
        &&& file_name_of(url_path_segments(self.url@)) == Some(self.file_name@)
    }

    /// Makes the request for `url` in `part_count` parts.
    ///
    /// The link is looked at first: one without path segments is refused
    /// whatever the number of parts.
    pub fn new(url: String, part_count: i64) -> (result: Result<DownloadRequest, DownloadError>)
        ensures
            match file_name_of(url_path_segments(url@)) {
                None => result == Err::<DownloadRequest, DownloadError>(
                    DownloadError::InvalidUrlError,
                ),
                Some(name) => if part_count < 1 {
                    result == Err::<DownloadRequest, DownloadError>(
                        DownloadError::InvalidPartCountError,
                    )
                } else {
                    &&& result matches Ok(request)
                    &&& request.spec_url() == url@
                    &&& request.spec_part_count() == part_count
                    &&& request.spec_file_name() == name
                },
            },
    {
        let segments = parse_path_segments(url.as_str());
        match file_name_from_segments(&segments) {
            None => Err(DownloadError::InvalidUrlError),
            Some(file_name) => {
                if part_count < 1 {
                    Err(DownloadError::InvalidPartCountError)
                } else {
                    Ok(DownloadRequest { url, part_count, file_name })
                }
            },
        }
    }

    /// The link as given.
    pub fn url(&self) -> (url: &str)
        ensures
            url@ == self.spec_url(),
    {
        self.url.as_str()
    }

    /// The number of parts: at least one.
    pub fn part_count(&self) -> (count: i64)
        ensures
            count == self.spec_part_count(),
            count >= 1,
    {
        proof {
            use_type_invariant(self);
        }
        self.part_count
    }

    /// The name of the file to write: the last path segment of the link.
    pub fn file_name(&self) -> (name: &str)
        ensures
            name@ == self.spec_file_name(),
            file_name_of(url_path_segments(self.spec_url())) == Some(name@),
    {
        proof {
            use_type_invariant(self);
        }
        self.file_name.as_str()
    }
}

} // verus!
