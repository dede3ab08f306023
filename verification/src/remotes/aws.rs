//! Monitoring of a bucket, with one database transaction for the whole run.
use crate::config::{client_config, client_settings, config_settings};
use crate::object::ListedObject;
use crate::s3;
use crate::s3::{judged, parsed, restored, CompactView};
use crate::secret::{secret_text, Secret};
use crate::statement::{schema, schema_statements, Statement, StatementView};
use crate::sync::{Action, SyncRun, Target, TargetView, TransactionScope};
use crate::views::{viewed, views};
use aws_sdk_s3::{Client, Config};
use vstd::prelude::*;

pub use crate::object::{Change, S3Object};

verus! {

/// How many objects are listed at a time.
pub const BATCH_SIZE: i32 = 1000;

/// The recorded state of an object, under its key.
#[derive(Debug)]
pub struct CompactS3Object {
    pub etag: String,
    pub size: u64,
    /// Seconds since the epoch.
    pub last_modified: i64,
}

/// The number that a size stands for when its bits are read as a signed number.
pub open spec fn signed(size: u64) -> int {
    if size <= i64::MAX {
        size as int
    } else {
        size - 0x1_0000_0000_0000_0000
    }
}

impl View for CompactS3Object {
    type V = CompactView;

    open spec fn view(&self) -> CompactView {
        CompactView {
            etag: self.etag@,
            size: signed(self.size) as i64,
            last_modified: self.last_modified,
        }
    }
}

impl Clone for CompactS3Object {
    fn clone(&self) -> (copy: CompactS3Object)
        ensures
            copy@ == self@,
            copy.size == self.size,
    {
        CompactS3Object {
            etag: self.etag.clone(),
            size: self.size,
            last_modified: self.last_modified,
        }
    }
}

impl CompactS3Object {
    /// The same state with a signed size.
    pub fn into_signed(self) -> (state: s3::CompactS3Object)
        ensures
            state@ == self@,
            state.size == signed(self.size),
    {
        let unsigned: u64 = self.size;
        let size: i64 = unsigned as i64;
        assert(size == signed(unsigned)) by {
            assert(unsigned <= 0x7fff_ffff_ffff_ffffu64 ==> (unsigned as i64) == unsigned)
                by (bit_vector);
            assert(unsigned > 0x7fff_ffff_ffff_ffffu64 ==> (unsigned as i64) == unsigned
                - 0x1_0000_0000_0000_0000) by (bit_vector);
        }
        s3::CompactS3Object { etag: self.etag, size, last_modified: self.last_modified }
    }
}

/// Where a bucket is, and how to get to it.
pub struct S3Conf {
    pub bucket: String,
    pub region: String,
    pub access_key_id: Secret,
    pub secret_access_key: Secret,
    pub endpoint_url: Option<String>,
}

/// What an [`S3Conf`] stands for.
pub struct ConfView {
    pub bucket: Seq<char>,
    pub region: Seq<char>,
    pub access_key_id: Seq<char>,
    pub secret_access_key: Seq<char>,
    pub endpoint_url: Option<Seq<char>>,
}

impl View for S3Conf {
    type V = ConfView;

    open spec fn view(&self) -> ConfView {
        ConfView {
            bucket: self.bucket@,
            region: self.region@,
            access_key_id: secret_text(self.access_key_id),
            secret_access_key: secret_text(self.secret_access_key),
            endpoint_url: viewed(self.endpoint_url),
        }
    }
}

impl S3Conf {
    /// A bucket at the endpoint of its region.
    pub fn new(
        bucket: String,
        access_key_id: String,
        secret_access_key: String,
        region: String,
    ) -> (conf: S3Conf)
        ensures
            conf@ == (ConfView {
                bucket: bucket@,
                region: region@,
                access_key_id: access_key_id@,
                secret_access_key: secret_access_key@,
                endpoint_url: None,
            }),
    {
        S3Conf {
            bucket,
            access_key_id: Secret::conceal(access_key_id),
            secret_access_key: Secret::conceal(secret_access_key),
            region,
            endpoint_url: None,
        }
    }

    /// A bucket at an endpoint of its own.
    pub fn new_with_endpoint(
        bucket: String,
        access_key_id: String,
        secret_access_key: String,
        region: String,
        endpoint_url: String,
    ) -> (conf: S3Conf)
        ensures
            conf@ == (ConfView {
                bucket: bucket@,
                region: region@,
                access_key_id: access_key_id@,
                secret_access_key: secret_access_key@,
                endpoint_url: Some(endpoint_url@),
            }),
    {
        S3Conf {
            bucket,
            access_key_id: Secret::conceal(access_key_id),
            secret_access_key: Secret::conceal(secret_access_key),
            region,
            endpoint_url: Some(endpoint_url),
        }
    }

    /// The access key id, in the clear.
    pub fn get_access_key_id(&self) -> (text: &str)
        ensures
            text@ == self@.access_key_id,
    {
        self.access_key_id.expose()
    }

    /// The secret access key, in the clear.
    pub fn get_secret_access_key(&self) -> (text: &str)
        ensures
            text@ == self@.secret_access_key,
    {
        self.secret_access_key.expose()
    }
}

/// A bucket with what a client for it is made from.
#[derive(Debug)]
pub struct ClientSetup {
    pub config: Config,
    pub bucket: String,
}

/// How the database of recorded states is opened.
#[derive(Debug)]
pub struct StateDb {
    pub url: String,
    /// What is executed at once, in order.
    pub statements: Vec<Statement>,
}

/// What a [`StateDb`] stands for.
pub struct StateDbView {
    pub url: Seq<char>,
    pub statements: Seq<StatementView>,
}

impl View for StateDb {
    type V = StateDbView;

    open spec fn view(&self) -> StateDbView {
        StateDbView { url: self.url@, statements: views(self.statements@) }
    }
}

/// S3 client for monitoring bucket changes
pub struct S3 {
    client: Client,
    bucket: String,
}

/// What an [`S3`] stands for.
pub struct S3View {
    pub client: Client,
    pub bucket: Seq<char>,
}

impl View for S3 {
    type V = S3View;

    closed spec fn view(&self) -> S3View {
        S3View { client: self.client, bucket: self.bucket@ }
    }
}

impl S3View {
    /// What a run over the bucket works on.
    pub open spec fn target(self) -> TargetView {
        TargetView {
            scope: TransactionScope::WholeRun,
            bucket: self.bucket,
            max_keys: BATCH_SIZE,
        }
    }
}

impl S3 {
    /// What a client for `conf` is made from.
    pub fn new(conf: &S3Conf) -> (setup: ClientSetup)
        ensures
            setup.bucket@ == conf@.bucket,
            config_settings(setup.config) == client_settings(
                conf@.access_key_id,
                conf@.secret_access_key,
                conf@.region,
                conf@.endpoint_url,
            ),
    {
        Self::create_client(conf)
    }

    /// A bucket that is listed with `client`.
    pub fn from_client(client: Client, bucket: String) -> (s3: S3)
        ensures
            s3@ == (S3View { client, bucket: bucket@ }),
    {
        S3 { client, bucket }
    }

    /// The client that the bucket is listed with.
    pub fn client(&self) -> (client: &Client)
        ensures
            *client == self@.client,
    {
        &self.client
    }

    /// Assembles what a client for `conf` is made from.
    pub fn create_client(conf: &S3Conf) -> (setup: ClientSetup)
        ensures
            setup.bucket@ == conf@.bucket,
            config_settings(setup.config) == client_settings(
                conf@.access_key_id,
                conf@.secret_access_key,
                conf@.region,
                conf@.endpoint_url,
            ),
    {
        // A custom endpoint is meant for local testing.
        let endpoint_url = match &conf.endpoint_url {
            Some(url) => Some(url.as_str()),
            None => None,
        };
        let config = client_config(
            conf.get_access_key_id(),
            conf.get_secret_access_key(),
            conf.region.clone(),
            endpoint_url,
        );
        ClientSetup { config, bucket: conf.bucket.clone() }
    }

    /// How the database at `db_path` is opened. It has to exist.
    pub fn create_state_db(db_path: &str) -> (db: StateDb)
        ensures
            db@ == (StateDbView { url: "sqlite:"@ + db_path@, statements: schema() }),
    {
        let mut url = String::from("sqlite:");
        url.append(db_path);
        StateDb { url, statements: schema_statements() }
    }

    /// Starts a run over the bucket, which hands over every change and records it.
    pub fn stream_diff_and_update<E>(&self) -> (first: (SyncRun<E>, Action<E>))
        ensures
            (first.0@, first.1@) == self@.target().started::<E>(),
    {
        SyncRun::start(
            Target {
                scope: TransactionScope::WholeRun,
                bucket: self.bucket.clone(),
                max_keys: BATCH_SIZE,
            },
        )
    }

    /// The change that `current_obj` stands for, given what was recorded for it before.
    pub fn determine_change(
        current_obj: &S3Object,
        previous_state: Option<CompactS3Object>,
    ) -> (change: Option<Change>)
        ensures
            viewed(change) == judged(current_obj@, viewed(previous_state)),
    {
        let previous_state = match previous_state {
            Some(state) => Some(state.into_signed()),
            None => None,
        };
        s3::S3::determine_change(current_obj, previous_state)
    }

    /// The object that an entry of a listing describes. An entry with a missing field gives none.
    pub fn parse_aws_object(obj: &ListedObject) -> (object: Option<S3Object>)
        ensures
            viewed(object) == parsed(obj@),
    {
        s3::S3::parse_aws_object(obj)
    }

    /// The object that `compact` was recorded for.
    pub fn compact_to_s3_object(key: &str, compact: &CompactS3Object) -> (object: S3Object)
        ensures
            object@ == restored(key@, compact@),
    {
        s3::S3::compact_to_s3_object(key, &compact.clone().into_signed())
    }
}

} // verus!
