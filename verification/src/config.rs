//! The configuration of an S3 client, assembled with the AWS SDK.
use aws_config::{BehaviorVersion, Region};
use aws_credential_types::Credentials;
use aws_sdk_s3::config::{Builder, Config, SharedCredentialsProvider};
use vstd::prelude::*;

verus! {

/// The name under which the credentials of this library are handed to the SDK.
pub const PROVIDER_NAME: &'static str = "resy";

/// `aws_sdk_s3::config::Builder`, a store of client settings.
#[verifier::external_type_specification]
#[verifier::external_body]
pub struct ExBuilder(Builder);

/// `aws_sdk_s3::Config`, the settings of a client once they are complete.
#[verifier::external_type_specification]
#[verifier::external_body]
pub struct ExConfig(Config);

/// What a [`Builder`] holds, in this order:
/// - credentials that do not expire: access key id, secret access key, session token and the name
///   of their provider;
/// - the region;
/// - the endpoint URL;
/// - whether buckets are addressed by path;
/// - whether the behaviour version is the SDK's latest.
pub uninterp spec fn builder_settings(builder: Builder) -> (
    Option<(Seq<char>, Seq<char>, Option<Seq<char>>, Seq<char>)>,
    Option<Seq<char>>,
    Option<Seq<char>>,
    Option<bool>,
    bool,
);

/// What a [`Config`] holds, listed as in [`builder_settings`].
pub uninterp spec fn config_settings(config: Config) -> (
    Option<(Seq<char>, Seq<char>, Option<Seq<char>>, Seq<char>)>,
    Option<Seq<char>>,
    Option<Seq<char>>,
    Option<bool>,
    bool,
);

/// `aws_sdk_s3::config::Builder::new`. Claimed: nothing is set.
#[verifier::external_body]
fn new_builder() -> (builder: Builder)
    ensures
        builder_settings(builder) == (
            None::<(Seq<char>, Seq<char>, Option<Seq<char>>, Seq<char>)>,
            None::<Seq<char>>,
            None::<Seq<char>>,
            None::<bool>,
            false,
        ),
{
    Builder::new()
}

/// `aws_sdk_s3::config::Builder::credentials_provider`, given what
/// `aws_credential_types::Credentials::new` makes of the arguments and of no expiry. Claimed: the
/// credentials are set and nothing else changes.
#[verifier::external_body]
fn with_credentials(
    builder: Builder,
    access_key_id: &str,
    secret_access_key: &str,
    session_token: Option<String>,
    provider_name: &'static str,
) -> (result: Builder)
    ensures
        builder_settings(result) == (
            Some(
                (
                    access_key_id@,
                    secret_access_key@,
                    match session_token {
                        Some(token) => Some(token@),
                        None => None,
                    },
                    provider_name@,
                ),
            ),
            builder_settings(builder).1,
            builder_settings(builder).2,
            builder_settings(builder).3,
            builder_settings(builder).4,
        ),
{
    let credentials =
        Credentials::new(access_key_id, secret_access_key, session_token, None, provider_name);
    builder.credentials_provider(SharedCredentialsProvider::new(credentials))
}

/// `aws_sdk_s3::config::Builder::region`. Claimed: the region is set and nothing else changes.
#[verifier::external_body]
fn with_region(builder: Builder, region: String) -> (result: Builder)
    ensures
        builder_settings(result) == (
            builder_settings(builder).0,
            Some(region@),
            builder_settings(builder).2,
            builder_settings(builder).3,
            builder_settings(builder).4,
        ),
{
    builder.region(Region::new(region))
}

/// `aws_sdk_s3::config::Builder::behavior_version`, given `aws_config::BehaviorVersion::latest`. Claimed: the behaviour version is the latest and
/// nothing else changes.
#[verifier::external_body]
fn with_latest_behavior(builder: Builder) -> (result: Builder)
    ensures
        builder_settings(result) == (
            builder_settings(builder).0,
            builder_settings(builder).1,
            builder_settings(builder).2,
            builder_settings(builder).3,
            true,
        ),
{
    builder.behavior_version(BehaviorVersion::latest())
}

/// `aws_sdk_s3::config::Builder::endpoint_url`. Claimed: the endpoint URL is set and nothing else
/// changes.
#[verifier::external_body]
fn with_endpoint_url(builder: Builder, endpoint_url: &str) -> (result: Builder)
    ensures
        builder_settings(result) == (
            builder_settings(builder).0,
            builder_settings(builder).1,
            Some(endpoint_url@),
            builder_settings(builder).3,
            builder_settings(builder).4,
        ),
{
    builder.endpoint_url(endpoint_url)
}

/// `aws_sdk_s3::config::Builder::force_path_style`. Claimed: the addressing style is set and
/// nothing else changes.
#[verifier::external_body]
fn with_force_path_style(builder: Builder, force_path_style: bool) -> (result: Builder)
    ensures
        builder_settings(result) == (
            builder_settings(builder).0,
            builder_settings(builder).1,
            builder_settings(builder).2,
            Some(force_path_style),
            builder_settings(builder).4,
        ),
{
    builder.force_path_style(force_path_style)
}

/// `aws_sdk_s3::config::Builder::build`. Claimed: the configuration holds what the builder held.
#[verifier::external_body]
fn finish(builder: Builder) -> (config: Config)
    ensures
        config_settings(config) == builder_settings(builder),
{
    builder.build()
}

/// The settings that a client is given. Buckets are addressed by path exactly where a custom
/// endpoint is named.
pub open spec fn client_settings(
    access_key_id: Seq<char>,
    secret_access_key: Seq<char>,
    region: Seq<char>,
    endpoint_url: Option<Seq<char>>,
) -> (
    Option<(Seq<char>, Seq<char>, Option<Seq<char>>, Seq<char>)>,
    Option<Seq<char>>,
    Option<Seq<char>>,
    Option<bool>,
    bool,
) {
    (
        Some((access_key_id, secret_access_key, None, PROVIDER_NAME@)),
        Some(region),
        endpoint_url,
        if endpoint_url is Some {
            Some(true)
        } else {
            None
        },
        true,
    )
}

/// Assembles the configuration of a client.
pub fn client_config(
    access_key_id: &str,
    secret_access_key: &str,
    region: String,
    endpoint_url: Option<&str>,
) -> (config: Config)
    ensures
        config_settings(config) == client_settings(
            access_key_id@,
            secret_access_key@,
            region@,
            match endpoint_url {
                Some(url) => Some(url@),
                None => None,
            },
        ),
{
    let mut builder = new_builder();
    builder = with_credentials(builder, access_key_id, secret_access_key, None, PROVIDER_NAME);
    builder = with_region(builder, region);
    builder = with_latest_behavior(builder);
    if let Some(url) = endpoint_url {
        builder = with_endpoint_url(builder, url);
        builder = with_force_path_style(builder, true);
    }
    finish(builder)
}

} // verus!
