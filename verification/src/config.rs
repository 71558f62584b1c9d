//! Node configuration: the command line's settings, the bridge operators
//! they name, and where state snapshots are exported.
use vstd::prelude::*;
use crate::types::{Address, be_value};

verus! {

/// The command line.
pub struct Cli {
    pub command: Commands,
}

/// Subcommands.
pub enum Commands {
    /// Start the node.
    Start(Box<StartConfig>),
    /// Print version information.
    Version,
}

/// Settings of a node start.
pub struct StartConfig {
    /// gRPC server address.
    pub grpc_addr: String,
    /// RPC server address.
    pub rpc_addr: String,
    /// Database path.
    pub db_path: String,
    /// Chain id.
    pub chain_id: String,
    /// Debug logging.
    pub debug: bool,
    /// Bridge operator addresses, as given.
    pub bridge_operators: Vec<String>,
    /// Whether snapshots are exported automatically.
    pub snapshot_enable: bool,
    /// Snapshot export interval in blocks.
    pub snapshot_interval: u64,
    pub snapshot: SnapshotConfig,
}

/// Snapshot storage settings.
pub struct SnapshotConfig {
    pub s3_bucket: Option<String>,
    pub s3_region: String,
    pub s3_prefix: String,
    pub gcs_bucket: Option<String>,
    pub gcs_prefix: String,
    pub local_path: String,
}

/// S3 storage.
pub struct S3Config {
    pub bucket: String,
    pub region: String,
    pub prefix: String,
}

/// Google Cloud Storage.
pub struct GCSConfig {
    pub bucket: String,
    pub prefix: String,
}

/// Where snapshots go.
pub enum CloudProvider {
    S3(S3Config),
    GCS(GCSConfig),
    Local { path: String },
}

/// Automatic snapshot export settings.
pub struct SnapshotExporterConfig {
    pub provider: CloudProvider,
    pub auto_export_interval: u64,
    pub chain_id: String,
}

/// A bridge operator entry that is not an address.
#[derive(Debug, Clone, Copy, PartialEq, Eq, Structural)]
pub enum ConfigError {
    /// The entry at this position of the list.
    InvalidBridgeOperator { index: usize },
}

/// The 20 bytes of the address written in `text` (hex, with or without
/// `0x`), if it is one.
pub uninterp spec fn address_text_bytes(text: Seq<char>) -> Option<Seq<u8>>;

/// Parses an address written in hex with `alloy_primitives::Address`'s
/// `FromStr`; the bytes are named by [`address_text_bytes`].
#[verifier::external_body]
fn parse_address_text(text: &str) -> (r: Option<[u8; 20]>)
    ensures
        match r {
            Some(b) => address_text_bytes(text@) == Some(b@),
            None => address_text_bytes(text@) is None,
        },
{
    match text.parse::<alloy_primitives::Address>() {
        Ok(a) => Some(a.0.0),
        Err(_) => None,
    }
}

/// The address whose big-endian bytes are `b`.
pub open spec fn address_of_bytes(b: Seq<u8>) -> Address {
    Address { hi: be_value(b.subrange(0, 16)) as u128, lo: be_value(b.subrange(16, 20)) as u32 }
}

/// The addresses written in `texts`, or the position of the first entry
/// that is not an address.
pub open spec fn parsed_operators(texts: Seq<Seq<char>>) -> Result<Seq<Address>, ConfigError>
    decreases texts.len(),
{
    if texts.len() == 0 {
        Ok(Seq::empty())
    } else {
        match parsed_operators(texts.drop_last()) {
            Err(e) => Err(e),
            Ok(a) => match address_text_bytes(texts.last()) {
                None => Err(ConfigError::InvalidBridgeOperator { index: (texts.len() - 1) as usize }),
                Some(b) => Ok(a.push(address_of_bytes(b))),
            },
        }
    }
}

proof fn lemma_parsed_operators_error(texts: Seq<Seq<char>>, k: int)
    requires
        0 <= k <= texts.len(),
        parsed_operators(texts.take(k)) is Err,
    ensures
        parsed_operators(texts) == parsed_operators(texts.take(k)),
    decreases texts.len() - k,
{
    if k < texts.len() {
        assert(texts.take(k + 1).drop_last() =~= texts.take(k));
        lemma_parsed_operators_error(texts, k + 1);
    } else {
        assert(texts.take(k) =~= texts);
    }
}

impl StartConfig {
    /// The views of the bridge operator entries.
    pub open spec fn operator_texts(&self) -> Seq<Seq<char>> {
        self.bridge_operators@.map_values(|s: String| s@)
    }

    /// Whether any bridge operator is configured.
    pub fn has_bridge_operators(&self) -> (r: bool)
        ensures
            r == (self.bridge_operators@.len() > 0),
    {
        self.bridge_operators.len() > 0
    }

    /// The configured bridge operators as addresses.
    pub fn parse_bridge_operators(&self) -> (r: Result<Vec<Address>, ConfigError>)
        ensures
            match parsed_operators(self.operator_texts()) {
                Ok(a) => r is Ok && r->Ok_0@ == a,
                Err(e) => r == Err::<Vec<Address>, ConfigError>(e),
            },
    {
        let mut out: Vec<Address> = Vec::new();
        let mut i: usize = 0;
        while i < self.bridge_operators.len()
            invariant
                i <= self.bridge_operators@.len(),
                parsed_operators(self.operator_texts().take(i as int)) == Ok::<Seq<Address>, ConfigError>(out@),
            decreases self.bridge_operators@.len() - i,
        {
            let ghost texts = self.operator_texts();
            proof {
                assert(texts.take(i + 1).drop_last() =~= texts.take(i as int));
                assert(texts.take(i + 1).last() == self.bridge_operators@[i as int]@);
            }
            match parse_address_text(self.bridge_operators[i].as_str()) {
                Some(bytes) => {
                    let a = Address::from_bytes(bytes);
                    out.push(a);
                },
                None => {
                    proof { lemma_parsed_operators_error(texts, i + 1); }
                    return Err(ConfigError::InvalidBridgeOperator { index: i });
                },
            }
            i += 1;
        }
        proof { assert(self.operator_texts().take(self.bridge_operators@.len() as int) =~= self.operator_texts()); }
        Ok(out)
    }

    /// Snapshot export settings, when automatic export is enabled.
    pub fn snapshot_exporter_config(&self) -> (r: Option<SnapshotExporterConfig>)
        ensures
            !self.snapshot_enable ==> r is None,
            self.snapshot_enable ==> r is Some && ({
                let c = r->Some_0;
                &&& c.auto_export_interval == self.snapshot_interval
                &&& c.chain_id@ == self.chain_id@
                &&& self.snapshot.provider_is(c.provider)
            }),
    {
        if self.snapshot_enable {
            Some(SnapshotExporterConfig {
                provider: self.snapshot.cloud_provider(),
                auto_export_interval: self.snapshot_interval,
                chain_id: self.chain_id.clone(),
            })
        } else {
            None
        }
    }
}

impl SnapshotConfig {
    /// Whether `p` is the storage these settings select: S3 when an S3
    /// bucket is set, else GCS when a GCS bucket is set, else local.
    pub open spec fn provider_is(&self, p: CloudProvider) -> bool {
        match self.s3_bucket {
            Some(bucket) => p matches CloudProvider::S3(c)
                && c.bucket@ == bucket@ && c.region@ == self.s3_region@ && c.prefix@ == self.s3_prefix@,
            None => match self.gcs_bucket {
                Some(bucket) => p matches CloudProvider::GCS(c) && c.bucket@ == bucket@ && c.prefix@ == self.gcs_prefix@,
                None => p matches CloudProvider::Local { path } && path@ == self.local_path@,
            },
        }
    }

    /// The storage these settings select (see [`Self::provider_is`]).
    pub fn cloud_provider(&self) -> (r: CloudProvider)
        ensures
            self.provider_is(r),
    {
        match &self.s3_bucket {
            Some(bucket) => CloudProvider::S3(S3Config {
                bucket: bucket.clone(),
                region: self.s3_region.clone(),
                prefix: self.s3_prefix.clone(),
            }),
            None => match &self.gcs_bucket {
                Some(bucket) => CloudProvider::GCS(GCSConfig { bucket: bucket.clone(), prefix: self.gcs_prefix.clone() }),
                None => CloudProvider::Local { path: self.local_path.clone() },
            },
        }
    }
}

} // verus!
