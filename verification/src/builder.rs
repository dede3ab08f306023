//! Step by step configuration of a client.
use crate::config::{client_config, client_settings, config_settings};
use crate::secret::{secret_text, Secret};
use crate::text::{signed_decimal, signed_decimal_text};
use crate::views::{converts, viewed, viewed_outcome};
use aws_sdk_s3::Config;
use vstd::prelude::*;

verus! {

/// How many objects are listed at a time where nothing else is asked for.
pub const DEFAULT_BATCH_SIZE: i32 = 1000;

/// Why a client cannot be configured.
#[derive(Debug)]
pub enum S3BuilderError {
    MissingField(&'static str),
    InvalidBatchSize(i32),
}

/// What an [`S3BuilderError`] stands for.
pub enum BuilderErrorView {
    MissingField(Seq<char>),
    InvalidBatchSize(i32),
}

impl View for S3BuilderError {
    type V = BuilderErrorView;

    open spec fn view(&self) -> BuilderErrorView {
        match self {
            S3BuilderError::MissingField(field) => BuilderErrorView::MissingField(field@),
            S3BuilderError::InvalidBatchSize(size) => BuilderErrorView::InvalidBatchSize(*size),
        }
    }
}

impl BuilderErrorView {
    /// The error in words.
    pub open spec fn message(self) -> Seq<char> {
        match self {
            BuilderErrorView::MissingField(field) => "Missing required field: "@ + field,
            BuilderErrorView::InvalidBatchSize(size) => "Invalid batch size: "@ + signed_decimal(
                size as int,
            ) + ". Must be at least 1"@,
        }
    }
}

impl S3BuilderError {
    /// The error in words.
    pub fn message(&self) -> (text: String)
        ensures
            text@ == self@.message(),
    {
        match self {
            S3BuilderError::MissingField(field) => {
                let mut text = String::from("Missing required field: ");
                text.append(field);
                text
            },
            S3BuilderError::InvalidBatchSize(size) => {
                let mut text = String::from("Invalid batch size: ");
                text.append(signed_decimal_text(*size).as_str());
                text.append(". Must be at least 1");
                text
            },
        }
    }
}

/// The keys that requests are signed with.
struct S3Credentials {
    access_key_id: Secret,
    secret_access_key: Secret,
}

/// What credentials stand for.
pub struct CredentialsView {
    pub access_key_id: Seq<char>,
    pub secret_access_key: Seq<char>,
}

impl View for S3Credentials {
    type V = CredentialsView;

    closed spec fn view(&self) -> CredentialsView {
        CredentialsView {
            access_key_id: secret_text(self.access_key_id),
            secret_access_key: secret_text(self.secret_access_key),
        }
    }
}

/// Collects the settings of a client.
pub struct S3Builder {
    bucket: Option<String>,
    region: Option<String>,
    credentials: Option<S3Credentials>,
    endpoint_url: Option<String>,
    batch_size: Option<i32>,
}

/// What an [`S3Builder`] stands for.
pub struct BuilderView {
    pub bucket: Option<Seq<char>>,
    pub region: Option<Seq<char>>,
    pub credentials: Option<CredentialsView>,
    pub endpoint_url: Option<Seq<char>>,
    pub batch_size: Option<i32>,
}

impl View for S3Builder {
    type V = BuilderView;

    closed spec fn view(&self) -> BuilderView {
        BuilderView {
            bucket: viewed(self.bucket),
            region: viewed(self.region),
            credentials: viewed(self.credentials),
            endpoint_url: viewed(self.endpoint_url),
            batch_size: self.batch_size,
        }
    }
}

/// A complete configuration: what a client is made from, and what it is to monitor.
#[derive(Debug)]
pub struct S3Setup {
    pub config: Config,
    pub bucket: String,
    pub batch_size: i32,
}

/// What an [`S3Setup`] stands for.
pub struct SetupView {
    /// The settings of the client, listed as in [`config_settings`].
    pub settings: (
        Option<(Seq<char>, Seq<char>, Option<Seq<char>>, Seq<char>)>,
        Option<Seq<char>>,
        Option<Seq<char>>,
        Option<bool>,
        bool,
    ),
    pub bucket: Seq<char>,
    pub batch_size: i32,
}

impl View for S3Setup {
    type V = SetupView;

    open spec fn view(&self) -> SetupView {
        SetupView {
            settings: config_settings(self.config),
            bucket: self.bucket@,
            batch_size: self.batch_size,
        }
    }
}

impl BuilderView {
    /// The settings of a fresh builder.
    pub open spec fn fresh() -> BuilderView {
        BuilderView {
            bucket: None,
            region: None,
            credentials: None,
            endpoint_url: None,
            batch_size: Some(DEFAULT_BATCH_SIZE),
        }
    }

    /// How many objects are listed at a time.
    pub open spec fn page_size(self) -> i32 {
        match self.batch_size {
            Some(size) => size,
            None => DEFAULT_BATCH_SIZE,
        }
    }

    /// The configuration that the settings give, or what is wrong with them. The first of several
    /// faults counts.
    pub open spec fn built(self) -> Result<SetupView, BuilderErrorView> {
        match (self.bucket, self.region, self.credentials) {
            (None, _, _) => Err(BuilderErrorView::MissingField("bucket"@)),
            (_, None, _) => Err(BuilderErrorView::MissingField("region"@)),
            (_, _, None) => Err(BuilderErrorView::MissingField("credentials"@)),
            (Some(bucket), Some(region), Some(credentials)) => if self.page_size() <= 0 {
                Err(BuilderErrorView::InvalidBatchSize(self.page_size()))
            } else {
                Ok(
                    SetupView {
                        settings: client_settings(
                            credentials.access_key_id,
                            credentials.secret_access_key,
                            region,
                            self.endpoint_url,
                        ),
                        bucket,
                        batch_size: self.page_size(),
                    },
                )
            },
        }
    }
}

impl Default for S3Builder {
    fn default() -> (builder: S3Builder)
        ensures
            builder@ == BuilderView::fresh(),
    {
        S3Builder::new()
    }
}

impl S3Builder {
    /// A builder with the default batch size, and nothing else set.
    pub fn new() -> (builder: S3Builder)
        ensures
            builder@ == BuilderView::fresh(),
    {
        S3Builder {
            bucket: None,
            region: None,
            credentials: None,
            endpoint_url: None,
            batch_size: Some(DEFAULT_BATCH_SIZE),
        }
    }

    /// Sets the bucket to monitor.
    pub fn bucket(self, bucket: impl Into<String>) -> (builder: S3Builder)
        ensures
            exists|text: String| #[trigger]
                converts(bucket, text) && builder@ == (BuilderView {
                    bucket: Some(text@),
                    ..self@
                }),
    {
        let text: String = bucket.into();
        assert(converts(bucket, text));
        let mut this = self;
        this.bucket = Some(text);
        this
    }

    /// Sets the region of the bucket.
    pub fn region(self, region: impl Into<String>) -> (builder: S3Builder)
        ensures
            exists|text: String| #[trigger]
                converts(region, text) && builder@ == (BuilderView {
                    region: Some(text@),
                    ..self@
                }),
    {
        let text: String = region.into();
        assert(converts(region, text));
        let mut this = self;
        this.region = Some(text);
        this
    }

    /// Sets the keys that requests are signed with.
    pub fn credentials(
        self,
        access_key_id: impl Into<String>,
        secret_access_key: impl Into<String>,
    ) -> (builder: S3Builder)
        ensures
            exists|id: String, secret: String|
                #![trigger converts(access_key_id, id), converts(secret_access_key, secret)]
                converts(access_key_id, id) && converts(secret_access_key, secret) && builder@ == (
                BuilderView {
                    credentials: Some(
                        CredentialsView { access_key_id: id@, secret_access_key: secret@ },
                    ),
                    ..self@
                }),
    {
        let id: String = access_key_id.into();
        assert(converts(access_key_id, id));
        let secret: String = secret_access_key.into();
        assert(converts(secret_access_key, secret));
        let mut this = self;
        this.credentials =
        Some(
            S3Credentials {
                access_key_id: Secret::conceal(id),
                secret_access_key: Secret::conceal(secret),
            },
        );
        this
    }

    /// Sets an endpoint other than that of the region. Buckets are then addressed by path.
    pub fn endpoint(self, endpoint: impl Into<String>) -> (builder: S3Builder)
        ensures
            exists|text: String| #[trigger]
                converts(endpoint, text) && builder@ == (BuilderView {
                    endpoint_url: Some(text@),
                    ..self@
                }),
    {
        let text: String = endpoint.into();
        assert(converts(endpoint, text));
        let mut this = self;
        this.endpoint_url = Some(text);
        this
    }

    /// Sets how many objects are listed at a time.
    pub fn batch_size(self, size: i32) -> (builder: S3Builder)
        ensures
            builder@ == (BuilderView { batch_size: Some(size), ..self@ }),
    {
        let mut this = self;
        this.batch_size = Some(size);
        this
    }

    /// Completes the configuration. Bucket, region and credentials have to be set, and the batch
    /// size has to be positive.
    pub fn build(self) -> (outcome: Result<S3Setup, S3BuilderError>)
        ensures
            viewed_outcome(outcome) == self@.built(),
    {
        let S3Builder { bucket, region, credentials, endpoint_url, batch_size } = self;
        let bucket = match bucket {
            Some(bucket) => bucket,
            None => return Err(S3BuilderError::MissingField("bucket")),
        };
        let region = match region {
            Some(region) => region,
            None => return Err(S3BuilderError::MissingField("region")),
        };
        let credentials = match credentials {
            Some(credentials) => credentials,
            None => return Err(S3BuilderError::MissingField("credentials")),
        };
        let batch_size: i32 = match batch_size {
            Some(size) => size,
            None => DEFAULT_BATCH_SIZE,
        };
        if batch_size <= 0 {
            return Err(S3BuilderError::InvalidBatchSize(batch_size));
        }
        let config = client_config(
            credentials.access_key_id.expose(),
            credentials.secret_access_key.expose(),
            region,
            match &endpoint_url {
                Some(url) => Some(url.as_str()),
                None => None,
            },
        );
        Ok(S3Setup { config, bucket, batch_size })
    }
}

} // verus!
