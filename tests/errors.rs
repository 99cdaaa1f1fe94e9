use azure_sas::error::{classify, AzureRequestError};

#[test]
fn classify_maps_known_status_codes() {
    assert!(classify(400) == AzureRequestError::BadRequest);
    assert!(classify(401) == AzureRequestError::AuthorizationFailure);
    assert!(classify(403) == AzureRequestError::ResourceFailure);
    assert!(classify(410) == AzureRequestError::ResourceNotFound);
    assert!(classify(500) == AzureRequestError::InternalError);
}

#[test]
fn classify_maps_other_codes_to_unknown() {
    assert!(classify(999) == AzureRequestError::UnknownError);
    assert!(classify(200) == AzureRequestError::UnknownError);
    assert!(classify(404) == AzureRequestError::UnknownError);
    assert!(classify(0) == AzureRequestError::UnknownError);
}

#[test]
fn equal_kinds_compare_equal() {
    assert!(AzureRequestError::BadRequest == AzureRequestError::BadRequest);
    assert!(AzureRequestError::EmptyBus == AzureRequestError::EmptyBus);
    assert!(AzureRequestError::LocalMessage == AzureRequestError::LocalMessage);
    assert!(AzureRequestError::NonSerializedBody == AzureRequestError::NonSerializedBody);
    assert!(AzureRequestError::BadRequest != AzureRequestError::InternalError);
    assert!(AzureRequestError::EmptyBus != AzureRequestError::LocalMessage);
}

#[test]
fn errors_with_causes_never_compare_equal() {
    let cause = url::Url::parse("no scheme here").unwrap_err();
    let a = AzureRequestError::InvalidEndpoint(cause);
    let b = AzureRequestError::InvalidEndpoint(cause);
    assert!(a != b);
    assert!(a != AzureRequestError::BadRequest);
}

#[test]
fn parse_error_converts_to_invalid_endpoint() {
    let cause = url::Url::parse("http://[::1").unwrap_err();
    let e = AzureRequestError::from(cause);
    assert!(matches!(e, AzureRequestError::InvalidEndpoint(c) if c == cause));
}

#[test]
fn descriptions_are_fixed() {
    assert_eq!(AzureRequestError::BadRequest.description(), "Remote returned code 400.");
    assert_eq!(
        AzureRequestError::AuthorizationFailure.description(),
        "Remote returned 401. Check your connection string."
    );
    assert_eq!(
        AzureRequestError::InternalError.description(),
        "Remote returned 500 - Internal server error"
    );
    assert_eq!(AzureRequestError::UnknownError.description(), "Something unexpected happened");
    let cause = url::Url::parse("").unwrap_err();
    assert_eq!(
        AzureRequestError::InvalidEndpoint(cause).description(),
        "The provided URL could not be parsed"
    );
}

#[test]
fn to_string_prefixes_description() {
    assert_eq!(
        AzureRequestError::EmptyBus.to_string(),
        "Azure request error: Service Bus Queue/Subscription didn't have any messages before receive timed out."
    );
}
