//! The DeArrow branding lookup: video identifiers, the request that asks for
//! the branding of one, the records that answer it, and the errors on the way.

use vstd::prelude::*;
use vstd::std_specs::convert::FromSpecImpl;
use vstd::std_specs::convert::TryFromSpecImpl;
use vstd::string::StringExecFns;
use vstd::string::StringSliceAdditionalSpecFns;
use uuid::Uuid;
use crate::identifier::{
    LONG_HOST, SCHEME_START, SHORT_HOST, VIDEO_ID_LEN, WATCH_PREFIX, is_video_id,
    lemma_bare_identifier, lemma_fixed_pieces, lemma_found_is_inside, lemma_found_is_video_id,
    video_id_in,
};
use crate::segments::{bytes_of, split_segments, stands_in};
use crate::text::{begins_with, leading, same_bytes, without_prefix};

verus! {

/// `reqwest::Error`, what a failed exchange with the service leaves behind.
/// It is carried as it is; nothing is claimed of what it holds.
#[verifier::external_type_specification]
#[verifier::external_body]
pub struct ExReqwestError(reqwest::Error);

/// `uuid::Uuid`, the identifier that the service gives to each title and each
/// thumbnail. It is carried as it is; nothing is claimed of what it holds.
#[verifier::external_type_specification]
#[verifier::external_body]
pub struct ExUuid(Uuid);

/// Where the branding of a video is asked for.
pub const DEARROW_BRANDING_API: &'static str = "https://sponsor.ajay.app/api/branding";

/// What can go wrong between a piece of text and the branding of a video.
#[derive(Debug)]
pub enum DeArrowApiError {
    /// The text, kept as it was given, names no video identifier.
    VideoIdParseError(String),
    /// The exchange with the service failed; the cause is kept as it came.
    ReqwestError(reqwest::Error),
}

impl DeArrowApiError {
    /// The error in words.
    pub fn message(&self) -> (text: String)
        ensures
            text@ == match self {
                DeArrowApiError::VideoIdParseError(input) => "Error: `"@ + input@
                    + "` is not a valid youtube url or video ID"@,
                DeArrowApiError::ReqwestError(_) => "Error sending request"@,
            },
    {
        match self {
            DeArrowApiError::VideoIdParseError(input) => {
                let mut text = "Error: `".to_owned();
                text.append(input.as_str());
                text.append("` is not a valid youtube url or video ID");
                text
            },
            DeArrowApiError::ReqwestError(_) => "Error sending request".to_owned(),
        }
    }
}

impl From<reqwest::Error> for DeArrowApiError {
    fn from(cause: reqwest::Error) -> (error: Self)
        ensures
            error == DeArrowApiError::ReqwestError(cause),
    {
        DeArrowApiError::ReqwestError(cause)
    }
}

impl FromSpecImpl<reqwest::Error> for DeArrowApiError {
    open spec fn obeys_from_spec() -> bool {
        true
    }

    open spec fn from_spec(cause: reqwest::Error) -> Self {
        DeArrowApiError::ReqwestError(cause)
    }
}

/// The identifier of a video: eleven bytes of the text that it was found in,
/// borrowed from that text.
#[derive(Debug, Clone, Copy)]
pub struct VideoId<'a>(&'a str);

impl<'a> View for VideoId<'a> {
    type V = Seq<u8>;

    /// The bytes of the identifier.
    closed spec fn view(&self) -> Seq<u8> {
        self.0.spec_bytes()
    }
}

impl<'a> VideoId<'a> {
    #[verifier::type_invariant]
    spec fn holds_video_id(self) -> bool {
        is_video_id(self.0.spec_bytes())
    }

    /// The identifier as text: eleven bytes without a separator, which name
    /// this identifier when they are parsed in their turn.
    pub fn as_str(&self) -> (text: &'a str)
        ensures
            text.spec_bytes() == self@,
            is_video_id(self@),
            video_id_in(text.spec_bytes()) == Some(self@),
    {
        proof {
            use_type_invariant(self);
            lemma_bare_identifier(self@);
        }
        self.0
    }
}

impl<'a> TryFrom<&'a str> for VideoId<'a> {
    type Error = DeArrowApiError;

    /// Looks for a video identifier in `value`: in a full link, in a short
    /// link, or as `value` itself. The identifier is a piece of `value`,
    /// borrowed from it. Where there is none, the error holds `value` as it
    /// was given.
    fn try_from(value: &'a str) -> (parsed: Result<Self, Self::Error>)
        ensures
            match parsed {
                Ok(id) => video_id_in(value.spec_bytes()) == Some(id@) && stands_in(
                    value.spec_bytes(),
                    id@,
                ),
                Err(error) => video_id_in(value.spec_bytes()) is None && (error matches DeArrowApiError::VideoIdParseError(
                    text,
                ) && text@ == value@),
            },
    {
        let parts = split_segments(value);
        proof {
            lemma_found_is_video_id(value.spec_bytes());
            lemma_found_is_inside(value.spec_bytes());
            assert(bytes_of(parts@).len() == parts@.len());
        }
        let found = if parts.len() == 3 {
            let scheme: &'a str = parts[0];
            let host: &'a str = parts[1];
            let path: &'a str = parts[2];
            assert(bytes_of(parts@)[0] == scheme.spec_bytes());
            assert(bytes_of(parts@)[1] == host.spec_bytes());
            assert(bytes_of(parts@)[2] == path.spec_bytes());
            if !begins_with(scheme.as_bytes(), SCHEME_START.as_bytes()) {
                None
            } else if same_bytes(host.as_bytes(), LONG_HOST.as_bytes()) {
                proof {
                    lemma_fixed_pieces();
                }
                match without_prefix(path, WATCH_PREFIX) {
                    Some(rest) => leading(rest, VIDEO_ID_LEN),
                    None => None,
                }
            } else if same_bytes(host.as_bytes(), SHORT_HOST.as_bytes()) {
                leading(path, VIDEO_ID_LEN)
            } else {
                None
            }
        } else if parts.len() == 1 {
            let whole: &'a str = parts[0];
            assert(bytes_of(parts@)[0] == whole.spec_bytes());
            if whole.as_bytes().len() == VIDEO_ID_LEN {
                Some(whole)
            } else {
                None
            }
        } else {
            None
        };
        assert(match found {
            Some(text) => video_id_in(value.spec_bytes()) == Some(text.spec_bytes()),
            None => video_id_in(value.spec_bytes()) is None,
        });
        match found {
            Some(text) => Ok(VideoId(text)),
            None => Err(DeArrowApiError::VideoIdParseError(value.to_owned())),
        }
    }
}

/// What `try_from` returns is said by its own contract, over the bytes of
/// the identifier. A result stated as a value would have to name the very
/// text that the identifier borrows, which no spec function can build: none
/// is promised through this trait.
impl<'a> TryFromSpecImpl<&'a str> for VideoId<'a> {
    open spec fn obeys_try_from_spec() -> bool {
        false
    }

    open spec fn try_from_spec(value: &'a str) -> Result<Self, Self::Error> {
        Err(DeArrowApiError::VideoIdParseError(arbitrary()))
    }
}

/// What `BrandingRequest` holds.
pub struct BrandingRequestView {
    pub video_id: Seq<u8>,
    pub service: Option<Seq<char>>,
    pub return_user_id: bool,
}

/// The question put to the service: the branding of one video.
#[derive(Debug)]
pub struct BrandingRequest<'a> {
    video_id: VideoId<'a>,
    service: Option<String>,
    return_user_id: bool,
}

impl<'a> View for BrandingRequest<'a> {
    type V = BrandingRequestView;

    closed spec fn view(&self) -> BrandingRequestView {
        BrandingRequestView {
            video_id: self.video_id@,
            service: match self.service {
                Some(name) => Some(name@),
                None => None,
            },
            return_user_id: self.return_user_id,
        }
    }
}

impl<'a> BrandingRequest<'a> {
    /// The request for the branding of `video_id`, which names no service
    /// and does not ask for user identifiers.
    pub fn new(video_id: VideoId<'a>) -> (request: Self)
        ensures
            request@ == (BrandingRequestView {
                video_id: video_id@,
                service: None,
                return_user_id: false,
            }),
    {
        BrandingRequest { video_id, service: None, return_user_id: false }
    }

    /// The video that is asked about.
    pub fn video_id(&self) -> (id: VideoId<'a>)
        ensures
            id@ == self@.video_id,
            is_video_id(id@),
    {
        proof {
            use_type_invariant(&self.video_id);
        }
        self.video_id
    }

    /// The service that hosts the video, where the request names one.
    pub fn service(&self) -> (name: Option<&str>)
        ensures
            match name {
                Some(text) => self@.service == Some(text@),
                None => self@.service is None,
            },
    {
        match &self.service {
            Some(text) => Some(text.as_str()),
            None => None,
        }
    }

    /// Whether the answer is to name the users behind its entries.
    pub fn return_user_id(&self) -> (wanted: bool)
        ensures
            wanted == self@.return_user_id,
    {
        self.return_user_id
    }
}

/// A title that was proposed for a video.
#[derive(Debug, PartialEq, Eq)]
pub struct TitleResponse {
    pub title: String,
    pub original: bool,
    pub votes: u64,
    pub locked: bool,
    pub uuid: Uuid,
}

/// A thumbnail that was proposed for a video: a moment of the video, or
/// the one that the video came with where `timestamp` is absent.
#[derive(Debug, PartialEq, Eq)]
pub struct ThumbnailResponse {
    pub timestamp: Option<u64>,
    pub original: bool,
    pub votes: u64,
    pub locked: bool,
    pub uuid: Uuid,
}

/// The branding of a video: titles and thumbnails in the order in which the
/// service gave them.
#[derive(Debug, PartialEq, Eq)]
pub struct BrandingResponse {
    pub titles: Vec<TitleResponse>,
    pub thumbnails: Vec<ThumbnailResponse>,
    pub random_time: u64,
    pub video_duration: Option<u64>,
}

impl BrandingResponse {
    /// What the caller gets after the one exchange with the service: the
    /// branding as it was decoded, or the cause of the failure as it came.
    /// There is nothing in between, and nothing is tried again.
    pub fn received(outcome: Result<BrandingResponse, reqwest::Error>) -> (answer: Result<
        BrandingResponse,
        DeArrowApiError,
    >)
        ensures
            answer == match outcome {
                Ok(branding) => Ok::<BrandingResponse, DeArrowApiError>(branding),
                Err(cause) => Err(DeArrowApiError::ReqwestError(cause)),
            },
    {
        match outcome {
            Ok(branding) => Ok(branding),
            Err(cause) => Err(DeArrowApiError::from(cause)),
        }
    }
}

} // verus!
