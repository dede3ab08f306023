//! Configuration of clients.
use aws_sdk_s3::config::interceptors::BeforeTransmitInterceptorContextRef;
use aws_sdk_s3::config::{ConfigBag, Intercept, RuntimeComponents};
use aws_sdk_s3::{Client, Config};
use resy::remotes::aws;
use resy::s3::{S3, S3Builder, S3BuilderError};
use resy::sync::Action;
use std::sync::{Arc, Mutex};

/// Keeps the first request that a client is about to send, and stops it.
#[derive(Debug)]
struct Recorder {
    seen: Arc<Mutex<Option<(String, String)>>>,
}

impl Intercept for Recorder {
    fn name(&self) -> &'static str {
        "Recorder"
    }

    fn read_before_transmit(
        &self,
        context: &BeforeTransmitInterceptorContextRef<'_>,
        _components: &RuntimeComponents,
        _cfg: &mut ConfigBag,
    ) -> Result<(), Box<dyn std::error::Error + Send + Sync>> {
        let request = context.request();
        let authorization = request.headers().get("authorization").unwrap_or("").to_string();
        let mut seen = self.seen.lock().unwrap();
        if seen.is_none() {
            *seen = Some((request.uri().to_string(), authorization));
        }
        Err("stopped".into())
    }
}

/// The URL and the authorization of the request that lists a bucket.
fn listing_request(config: &Config, bucket: &str) -> (String, String) {
    let seen = Arc::new(Mutex::new(None));
    let recorded = config.to_builder().interceptor(Recorder { seen: seen.clone() }).build();
    let client = Client::from_conf(recorded);
    let runtime = tokio::runtime::Runtime::new().unwrap();
    let outcome = runtime.block_on(client.list_objects_v2().bucket(bucket).max_keys(8).send());
    assert!(outcome.is_err());
    let request = seen.lock().unwrap().take();
    request.unwrap()
}

fn client() -> Client {
    let setup = S3::builder()
        .bucket("my-bucket")
        .region("us-west-2")
        .credentials("key", "secret")
        .build()
        .unwrap();
    Client::from_conf(setup.config)
}

#[test]
fn test_builder_missing_bucket() {
    let result = S3::builder()
        .region("us-west-2")
        .credentials("test-key", "test-secret")
        .build();

    assert!(result.is_err());
    let err = result.unwrap_err();
    assert!(matches!(err, S3BuilderError::MissingField("bucket")));
}

#[test]
fn test_builder_missing_region() {
    let result = S3::builder()
        .bucket("test-bucket")
        .credentials("test-key", "test-secret")
        .build();

    assert!(result.is_err());
    let err = result.unwrap_err();
    assert!(matches!(err, S3BuilderError::MissingField("region")));
}

#[test]
fn test_builder_missing_credentials() {
    let result = S3::builder().bucket("test-bucket").region("us-west-2").build();

    assert!(result.is_err());
    let err = result.unwrap_err();
    assert!(matches!(err, S3BuilderError::MissingField("credentials")));
}

#[test]
fn test_builder_invalid_batch_size_negative() {
    let result = S3::builder()
        .bucket("test-bucket")
        .region("us-west-2")
        .credentials("test-key", "test-secret")
        .batch_size(-1)
        .build();

    assert!(result.is_err());
    let err = result.unwrap_err();
    assert!(matches!(err, S3BuilderError::InvalidBatchSize(-1)));
}

#[test]
fn test_builder_invalid_batch_size_zero() {
    let result = S3::builder()
        .bucket("test-bucket")
        .region("us-west-2")
        .credentials("test-key", "test-secret")
        .batch_size(0)
        .build();

    assert!(result.is_err());
    let err = result.unwrap_err();
    assert!(matches!(err, S3BuilderError::InvalidBatchSize(0)));
}

#[test]
fn errors_in_words() {
    assert_eq!(
        S3BuilderError::MissingField("bucket").message(),
        "Missing required field: bucket"
    );
    assert_eq!(
        S3BuilderError::InvalidBatchSize(0).message(),
        "Invalid batch size: 0. Must be at least 1"
    );
    assert_eq!(
        S3BuilderError::InvalidBatchSize(-120).message(),
        "Invalid batch size: -120. Must be at least 1"
    );
    assert_eq!(
        S3BuilderError::InvalidBatchSize(i32::MIN).message(),
        "Invalid batch size: -2147483648. Must be at least 1"
    );
}

#[test]
fn the_first_of_several_faults_counts() {
    assert!(matches!(S3Builder::new().build(), Err(S3BuilderError::MissingField("bucket"))));
    assert!(matches!(
        S3Builder::default().bucket("b").batch_size(0).build(),
        Err(S3BuilderError::MissingField("region"))
    ));
    assert!(matches!(
        S3Builder::default().bucket("b").region("r").batch_size(-5).build(),
        Err(S3BuilderError::MissingField("credentials"))
    ));
}

#[test]
fn a_complete_configuration_is_built() {
    let setup = S3::builder()
        .bucket("test-bucket")
        .region("us-west-2")
        .credentials("test-key", "test-secret")
        .build()
        .unwrap();
    assert_eq!(setup.bucket, "test-bucket");
    assert_eq!(setup.batch_size, 1000);
    assert_eq!(setup.config.region().map(|r| r.to_string()), Some("us-west-2".to_string()));

    let smallest = S3::builder()
        .bucket("b")
        .region("r")
        .credentials("k", "s")
        .batch_size(1)
        .build()
        .unwrap();
    assert_eq!(smallest.batch_size, 1);
}

#[test]
fn the_last_setting_counts() {
    let setup = S3::builder()
        .bucket("first")
        .batch_size(0)
        .bucket(String::from("second"))
        .batch_size(500)
        .region("eu-west-1")
        .credentials("a", "b")
        .region(String::from("us-east-1"))
        .build()
        .unwrap();
    assert_eq!(setup.bucket, "second");
    assert_eq!(setup.batch_size, 500);
    assert_eq!(setup.config.region().map(|r| r.to_string()), Some("us-east-1".to_string()));
}

#[test]
fn requests_go_to_the_region_under_the_given_key() {
    let setup = S3::builder()
        .bucket("my-bucket")
        .region("us-west-2")
        .credentials("test-key", "test-secret")
        .build()
        .unwrap();
    let (url, authorization) = listing_request(&setup.config, &setup.bucket);
    assert!(url.starts_with("https://my-bucket.s3.us-west-2.amazonaws.com/"), "{url}");
    assert!(authorization.contains("Credential=test-key/"), "{authorization}");
    assert!(authorization.contains("/us-west-2/s3/aws4_request"), "{authorization}");
}

#[test]
fn an_endpoint_is_addressed_by_path() {
    let setup = S3::builder()
        .bucket("my-bucket")
        .region("us-east-1")
        .credentials("other-key", "test-secret")
        .endpoint("http://localhost:4566")
        .build()
        .unwrap();
    let (url, authorization) = listing_request(&setup.config, &setup.bucket);
    assert!(url.starts_with("http://localhost:4566/my-bucket"), "{url}");
    assert!(authorization.contains("Credential=other-key/"), "{authorization}");
}

#[test]
fn a_client_for_a_whole_run_is_configured_alike() {
    let conf = aws::S3Conf::new_with_endpoint(
        "my-bucket".to_string(),
        "test-key".to_string(),
        "test-secret".to_string(),
        "us-west-2".to_string(),
        "http://localhost:4566".to_string(),
    );
    let setup = aws::S3::new(&conf);
    assert_eq!(setup.bucket, "my-bucket");
    let (url, authorization) = listing_request(&setup.config, &setup.bucket);
    assert!(url.starts_with("http://localhost:4566/my-bucket"), "{url}");
    assert!(authorization.contains("Credential=test-key/"), "{authorization}");

    let plain = aws::S3Conf::new(
        "my-bucket".to_string(),
        "test-key".to_string(),
        "test-secret".to_string(),
        "eu-central-1".to_string(),
    );
    let (url, _) = listing_request(&aws::S3::create_client(&plain).config, "my-bucket");
    assert!(url.starts_with("https://my-bucket.s3.eu-central-1.amazonaws.com/"), "{url}");
}

#[test]
fn a_run_lists_the_bucket_with_its_batch_size() {
    let s3 = S3::from_client(client(), "b".to_string(), Some(8));
    let copy = s3.clone();
    let (path, run, first) = copy.stream_changes::<String>("resy.db");
    assert_eq!(path, "resy.db");
    assert!(matches!(first, Action::AddSeenColumn));
    let (run, second) = run.after(resy::sync::Event::Done);
    assert!(matches!(second, Action::ResetSeen));
    let (run, third) = run.after(resy::sync::Event::Done);
    assert!(matches!(third, Action::Begin));
    let (_, fourth) = run.after(resy::sync::Event::Done);
    match fourth {
        Action::List { bucket, max_keys, continuation_token } => {
            assert_eq!(bucket, "b");
            assert_eq!(max_keys, 8);
            assert_eq!(continuation_token, None);
        }
        _ => panic!("Expected a listing"),
    }
    assert_eq!(s3.client().config().region().map(|r| r.to_string()), Some("us-west-2".to_string()));
}

#[test]
fn a_thousand_objects_are_listed_by_default() {
    let s3 = S3::from_client(client(), "b".to_string(), None);
    let (run, _) = s3.stream_diff_and_update::<String>();
    let (run, _) = run.after(resy::sync::Event::Done);
    let (run, _) = run.after(resy::sync::Event::Done);
    let (_, action) = run.after(resy::sync::Event::Done);
    assert!(matches!(action, Action::List { max_keys: 1000, .. }));

    let whole = aws::S3::from_client(client(), "b".to_string());
    let (run, first) = whole.stream_diff_and_update::<String>();
    assert!(matches!(first, Action::Begin));
    let (run, _) = run.after(resy::sync::Event::Done);
    let (run, _) = run.after(resy::sync::Event::Done);
    let (_, action) = run.after(resy::sync::Event::Done);
    assert!(matches!(action, Action::List { max_keys: 1000, .. }));
    assert!(whole.client().config().region().is_some());
}

#[test]
fn a_database_is_named_after_the_bucket_where_no_path_is_given() {
    let s3 = S3::from_client(client(), "my-bucket".to_string(), None);
    assert_eq!(s3.db_path(""), "my-bucket.db");
    assert_eq!(s3.db_path("resy.db"), "resy.db");
    assert_eq!(s3.stream_changes::<String>("").0, "my-bucket.db");
    assert_eq!(s3.stream_changes::<String>("").0, s3.stream_changes::<String>("").0);
}
