//! AWS-specific configuration: credentials profile, Terraform state bucket
//! and the Parameter Store prefix.

use vstd::prelude::*;
use vstd::string::*;
use crate::text::owned;

verus! {

/// AWS settings for credentials, state management and parameters.
#[derive(Debug, Clone)]
pub struct AwsConfig {
    /// AWS profile name for credential selection
    pub profile: String,
    /// S3 bucket prefix for Terraform state files
    pub state_bucket_prefix: String,
    /// AWS Systems Manager Parameter Store prefix
    pub ssm_prefix: String,
}

/// The full Parameter Store path of `param` under `prefix`: `prefix/param`.
pub open spec fn ssm_path(prefix: Seq<char>, param: Seq<char>) -> Seq<char> {
    prefix + seq!['/'] + param
}

impl AwsConfig {
    /// Create a new AWS configuration from its three settings.
    pub fn new(profile: &str, state_bucket_prefix: &str, ssm_prefix: &str) -> (r: Self)
        ensures
            r.profile@ == profile@,
            r.state_bucket_prefix@ == state_bucket_prefix@,
            r.ssm_prefix@ == ssm_prefix@,
    {
        AwsConfig {
            profile: owned(profile),
            state_bucket_prefix: owned(state_bucket_prefix),
            ssm_prefix: owned(ssm_prefix),
        }
    }

    /// The full SSM parameter path for a parameter name: `<ssm_prefix>/<param>`.
    pub fn ssm_param_path(&self, param: &str) -> (r: String)
        ensures
            r@ == ssm_path(self.ssm_prefix@, param@),
    {
        let mut s = self.ssm_prefix.clone();
        s.push('/');
        s.append(param);
        s
    }

    /// The state bucket name, which is the configured prefix itself.
    pub fn state_bucket_name(&self) -> (r: &str)
        ensures
            r@ == self.state_bucket_prefix@,
    {
        self.state_bucket_prefix.as_str()
    }
}

impl Default for AwsConfig {
    fn default() -> (r: Self)
        ensures
            r.profile@ == "default"@,
            r.state_bucket_prefix@ == "terraform-state"@,
            r.ssm_prefix@ == "/app"@,
    {
        AwsConfig {
            profile: owned("default"),
            state_bucket_prefix: owned("terraform-state"),
            ssm_prefix: owned("/app"),
        }
    }
}

} // verus!
