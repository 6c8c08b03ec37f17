use rusty_reel::dearrow_api::{
    BrandingRequest, BrandingResponse, DeArrowApiError, ThumbnailResponse, TitleResponse, VideoId,
    DEARROW_BRANDING_API,
};
use uuid::Uuid;

fn failure() -> reqwest::Error {
    reqwest::Client::new().get("no address").build().unwrap_err()
}

fn branding() -> BrandingResponse {
    BrandingResponse {
        titles: vec![
            TitleResponse {
                title: String::from("second best"),
                original: false,
                votes: 3,
                locked: false,
                uuid: Uuid::from_u128(2),
            },
            TitleResponse {
                title: String::from("best"),
                original: true,
                votes: 10,
                locked: true,
                uuid: Uuid::from_u128(1),
            },
        ],
        thumbnails: vec![
            ThumbnailResponse {
                timestamp: None,
                original: true,
                votes: 0,
                locked: false,
                uuid: Uuid::from_u128(3),
            },
            ThumbnailResponse {
                timestamp: Some(0),
                original: false,
                votes: 1,
                locked: false,
                uuid: Uuid::from_u128(4),
            },
        ],
        random_time: 17,
        video_duration: None,
    }
}

#[test]
fn the_endpoint_is_fixed() {
    assert_eq!(DEARROW_BRANDING_API, "https://sponsor.ajay.app/api/branding");
}

#[test]
fn the_endpoint_is_an_address_that_a_request_can_be_built_for() {
    let request = reqwest::Client::new().get(DEARROW_BRANDING_API).build().unwrap();
    assert_eq!(request.method(), &reqwest::Method::GET);
    assert_eq!(request.url().scheme(), "https");
    assert_eq!(request.url().host_str(), Some("sponsor.ajay.app"));
    assert_eq!(request.url().path(), "/api/branding");
    assert_eq!(request.url().query(), None);
}

#[test]
fn a_new_request_names_no_service_and_asks_for_no_user() {
    let id = VideoId::try_from("https://www.youtube.com/watch?v=imptKC2WKY4&t=142s").unwrap();
    let request = BrandingRequest::new(id);
    assert_eq!(request.video_id().as_str(), "imptKC2WKY4");
    assert_eq!(request.service(), None);
    assert!(!request.return_user_id());
}

#[test]
fn a_failed_exchange_becomes_the_transport_error() {
    let error = DeArrowApiError::from(failure());
    assert_eq!(error.message(), "Error sending request");
    match error {
        DeArrowApiError::ReqwestError(cause) => assert!(cause.is_builder()),
        other => panic!("{:?}", other),
    }
}

#[test]
fn a_failed_exchange_is_handed_on_with_its_cause() {
    match BrandingResponse::received(Err(failure())) {
        Err(DeArrowApiError::ReqwestError(cause)) => {
            assert!(cause.is_builder());
            assert_eq!(cause.to_string(), failure().to_string());
        }
        other => panic!("{:?}", other),
    }
}

#[test]
fn a_decoded_answer_is_handed_on_as_it_is() {
    let answer = BrandingResponse::received(Ok(branding())).unwrap();
    assert_eq!(answer, branding());
    assert_eq!(answer.titles[0].title, "second best");
    assert_eq!(answer.titles[1].title, "best");
    assert_eq!(answer.thumbnails[0].timestamp, None);
    assert_eq!(answer.thumbnails[1].timestamp, Some(0));
    assert_eq!(answer.video_duration, None);
    assert_eq!(answer.random_time, 17);
}
