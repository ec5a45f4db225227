//! The high-availability data model the replication collaborators bind
//! to: cluster membership, consensus state, the cryptographic log shapes,
//! elections and terms, snapshots and incremental sync, failover and
//! recovery records, health and alerting shapes, and quorum tie-breaking.

use crate::codec::{digest_of, sha3_256};
use crate::util::{lex_lt, str_lt};
use vstd::prelude::*;
use vstd::string::StringExecFns;

verus! {

/// Roles a node can hold in the cluster.
#[derive(Clone, Copy, Debug, PartialEq, Eq, Structural)]
pub enum NodeRole {
    Leader,
    Follower,
    Candidate,
    Observer,
}

/// Node health states.
#[derive(Clone, Copy, Debug, PartialEq, Eq, Structural)]
pub enum NodeStatus {
    Healthy,
    Degraded,
    Unreachable,
    Failed,
    Joining,
    Leaving,
}

/// The attestation flavors a node can present.
#[derive(Clone, Copy, Debug, PartialEq, Eq, Structural)]
pub enum AttestationType {
    Sgx,
    Tdx,
    Sev,
    TrustZone,
}

/// An enclave measurement.
pub struct Measurement {
    pub mr_enclave: Vec<u8>,
    pub mr_signer: Vec<u8>,
    pub isv_prod_id: u16,
    pub isv_svn: u16,
    pub config_id: Vec<u8>,
}

impl Default for Measurement {
    fn default() -> (r: Self)
        ensures
            r.isv_prod_id == 0,
            r.isv_svn == 0,
    {
        Measurement {
            mr_enclave: Vec::new(),
            mr_signer: Vec::new(),
            isv_prod_id: 0,
            isv_svn: 0,
            config_id: Vec::new(),
        }
    }
}

/// A node's attestation evidence.
pub struct TEEAttestation {
    pub attestation_type: AttestationType,
    pub quote: Vec<u8>,
    pub signature: Vec<u8>,
    pub certificate_chain: Vec<Vec<u8>>,
    pub measurement: Measurement,
    /// Seconds since the epoch.
    pub timestamp: u64,
    pub verified: bool,
}

impl Default for TEEAttestation {
    fn default() -> (r: Self)
        ensures
            r.verified == false,
            r.attestation_type == AttestationType::Sgx,
    {
        TEEAttestation {
            attestation_type: AttestationType::Sgx,
            quote: Vec::new(),
            signature: Vec::new(),
            certificate_chain: Vec::new(),
            measurement: Measurement::default(),
            timestamp: 0,
            verified: false,
        }
    }
}

/// What a node can do.
pub struct NodeCapabilities {
    pub max_memory: u64,
    pub max_cpu_cores: u16,
    pub tee_features: Vec<String>,
    pub supported_apis: Vec<String>,
    pub encryption_algorithms: Vec<String>,
}

impl Default for NodeCapabilities {
    fn default() -> (r: Self)
        ensures
            r.max_memory == 8589934592,
            r.max_cpu_cores == 8,
    {
        NodeCapabilities {
            max_memory: 8589934592,
            max_cpu_cores: 8,
            tee_features: Vec::new(),
            supported_apis: Vec::new(),
            encryption_algorithms: Vec::new(),
        }
    }
}

/// One member of the cluster.
pub struct NodeInfo {
    pub id: String,
    pub address: String,
    pub port: u16,
    pub role: NodeRole,
    pub status: NodeStatus,
    pub tee_attestation: TEEAttestation,
    pub capabilities: NodeCapabilities,
    /// Seconds since the epoch.
    pub last_heartbeat: u64,
    pub joined_at: u64,
    pub version: String,
}

impl NodeInfo {
    /// A freshly joined follower.
    pub fn new(node_id: &str) -> (r: Self)
        ensures
            r.id@ == node_id@,
            r.role == NodeRole::Follower,
            r.status == NodeStatus::Healthy,
            r.port == 8080,
    {
        NodeInfo {
            id: String::from_str(node_id),
            address: String::from_str("127.0.0.1"),
            port: 8080,
            role: NodeRole::Follower,
            status: NodeStatus::Healthy,
            tee_attestation: TEEAttestation::default(),
            capabilities: NodeCapabilities::default(),
            last_heartbeat: 0,
            joined_at: 0,
            version: String::from_str("1.0.0"),
        }
    }
}

/// How members are discovered.
#[derive(Clone, Copy, Debug, PartialEq, Eq, Structural)]
pub enum DiscoveryMethod {
    StaticList,
    Dns,
    Kubernetes,
    Consul,
    Etcd,
}

/// The discovery state.
pub struct NodeDiscovery {
    pub method: DiscoveryMethod,
    pub seed_nodes: Vec<String>,
    /// Microseconds between rounds.
    pub discovery_interval: u64,
}

impl NodeDiscovery {
    pub fn new() -> (r: Self)
        ensures
            r.method == DiscoveryMethod::StaticList,
            r.seed_nodes@.len() == 0,
    {
        NodeDiscovery {
            method: DiscoveryMethod::StaticList,
            seed_nodes: Vec::new(),
            discovery_interval: 30000000,
        }
    }
}

/// Membership changes observers see.
pub enum MembershipChange {
    NodeJoined(NodeInfo),
    NodeLeft(String),
    NodeUpdated(NodeInfo),
    LeaderChanged { old_leader: Option<String>, new_leader: String },
}

/// The consensus state machine of one node.
pub struct RaftState {
    pub current_term: u64,
    pub voted_for: Option<String>,
    pub role: NodeRole,
    pub leader_id: Option<String>,
    pub commit_index: u64,
    pub last_applied: u64,
    pub next_index: Vec<(String, u64)>,
    pub match_index: Vec<(String, u64)>,
}

impl RaftState {
    pub fn new() -> (r: Self)
        ensures
            r.current_term == 0,
            r.voted_for is None,
            r.role == NodeRole::Follower,
            r.leader_id is None,
            r.commit_index == 0,
            r.last_applied == 0,
    {
        RaftState {
            current_term: 0,
            voted_for: None,
            role: NodeRole::Follower,
            leader_id: None,
            commit_index: 0,
            last_applied: 0,
            next_index: Vec::new(),
            match_index: Vec::new(),
        }
    }
}

/// The classes of log entry.
#[derive(Clone, Copy, Debug, PartialEq, Eq, Structural)]
pub enum EntryType {
    StateChange,
    Configuration,
    Membership,
    Checkpoint,
    NoOp,
}

/// One cryptographically chained log entry.
pub struct LogEntry {
    pub index: u64,
    pub term: u64,
    pub entry_type: EntryType,
    pub data: Vec<u8>,
    pub timestamp: u64,
    pub hash: Vec<u8>,
    pub previous_hash: Vec<u8>,
    pub node_id: String,
}

/// A Merkle tree over the log's entry hashes.
pub struct MerkleTree {
    pub root_hash: Vec<u8>,
    pub tree_height: usize,
    pub leaf_hashes: Vec<Vec<u8>>,
    pub internal_nodes: Vec<Vec<Vec<u8>>>,
}

impl MerkleTree {
    pub fn new() -> (r: Self)
        ensures
            r.tree_height == 0,
            r.leaf_hashes@.len() == 0,
    {
        MerkleTree {
            root_hash: Vec::new(),
            tree_height: 0,
            leaf_hashes: Vec::new(),
            internal_nodes: Vec::new(),
        }
    }
}

/// A tamper-evidence chain: each link digests the previous head and the
/// new entry's bytes.
pub struct HashChain {
    pub genesis_hash: Vec<u8>,
    pub current_hash: Vec<u8>,
    pub chain_length: u64,
}

impl HashChain {
    pub fn new() -> (r: Self)
        ensures
            r.chain_length == 0,
            r.genesis_hash@.len() == 0,
            r.current_hash@.len() == 0,
    {
        HashChain { genesis_hash: Vec::new(), current_hash: Vec::new(), chain_length: 0 }
    }

    /// Extend the chain with one entry: the new head is the digest of the
    /// old head followed by the entry's bytes.
    pub fn append(&mut self, data: &[u8])
        requires
            old(self).chain_length < u64::MAX,
        ensures
            final(self).chain_length == old(self).chain_length + 1,
            final(self).current_hash@ == digest_of(old(self).current_hash@ + data@),
            final(self).genesis_hash == old(self).genesis_hash,
    {
        let mut buf = crate::memory_store::clone_bytes_pub(&self.current_hash);
        let ghost head = self.current_hash@;
        let mut i: usize = 0;
        while i < data.len()
            invariant
                i <= data@.len(),
                buf@ == head + data@.take(i as int),
            decreases data@.len() - i,
        {
            buf.push(data[i]);
            proof {
                assert(buf@ =~= head + data@.take(i + 1));
            }
            i = i + 1;
        }
        proof {
            assert(buf@ =~= head + data@);
        }
        self.current_hash = sha3_256(buf.as_slice());
        self.chain_length = self.chain_length + 1;
    }
}

/// A signature over one log entry.
pub struct EntrySignature {
    pub signature: Vec<u8>,
    pub public_key: Vec<u8>,
    pub algorithm: SignatureAlgorithm,
    pub timestamp: u64,
}

/// Signature schemes.
#[derive(Clone, Copy, Debug, PartialEq, Eq, Structural)]
pub enum SignatureAlgorithm {
    Ed25519,
    Ecdsa,
    Rsa,
}

/// The cryptographic log: chained entries, their tree, and signatures.
pub struct CryptographicLog {
    pub entries: Vec<LogEntry>,
    pub merkle_tree: MerkleTree,
    pub hash_chain: HashChain,
    pub signatures: Vec<(u64, EntrySignature)>,
}

impl CryptographicLog {
    pub fn new() -> (r: Self)
        ensures
            r.entries@.len() == 0,
            r.hash_chain.chain_length == 0,
            r.signatures@.len() == 0,
    {
        CryptographicLog {
            entries: Vec::new(),
            merkle_tree: MerkleTree::new(),
            hash_chain: HashChain::new(),
            signatures: Vec::new(),
        }
    }
}

/// One node's answer to a vote request.
pub struct VoteResponse {
    pub term: u64,
    pub vote_granted: bool,
    pub voter_id: String,
    pub candidate_id: String,
    pub last_log_index: u64,
    pub last_log_term: u64,
    pub timestamp: u64,
    pub signature: Vec<u8>,
}

/// How an election ended.
#[derive(Clone, Copy, Debug, PartialEq, Eq, Structural)]
pub enum ElectionResult {
    Won,
    Lost,
    Split,
    Timeout,
}

/// The live state of one election.
pub struct ElectionState {
    pub in_election: bool,
    pub election_term: u64,
    /// Clock reading of the start, microseconds.
    pub election_start: u64,
    pub candidate_id: Option<String>,
    pub votes_received: Vec<String>,
    pub votes_granted: u32,
    pub votes_denied: u32,
}

impl ElectionState {
    pub fn new() -> (r: Self)
        ensures
            r.in_election == false,
            r.election_term == 0,
            r.votes_granted == 0,
            r.votes_denied == 0,
    {
        ElectionState {
            in_election: false,
            election_term: 0,
            election_start: 0,
            candidate_id: None,
            votes_received: Vec::new(),
            votes_granted: 0,
            votes_denied: 0,
        }
    }

    /// Count one vote.
    pub fn record_vote(&mut self, granted: bool)
        requires
            old(self).votes_granted < u32::MAX,
            old(self).votes_denied < u32::MAX,
        ensures
            granted ==> final(self).votes_granted == old(self).votes_granted + 1 && final(self).votes_denied == old(self).votes_denied,
            !granted ==> final(self).votes_denied == old(self).votes_denied + 1 && final(self).votes_granted == old(self).votes_granted,
    {
        if granted {
            self.votes_granted = self.votes_granted + 1;
        } else {
            self.votes_denied = self.votes_denied + 1;
        }
    }

    /// Whether the granted votes reach the quorum.
    pub fn quorum_reached(&self, quorum_size: u32) -> (r: bool)
        ensures
            r == (self.votes_granted >= quorum_size),
    {
        self.votes_granted >= quorum_size
    }
}

/// Vote bookkeeping for one term.
pub struct VoteTracker {
    pub term: u64,
    pub votes: Vec<(String, VoteResponse)>,
    pub quorum_achieved: bool,
    pub election_result: Option<ElectionResult>,
}

/// Election timing, microseconds.
pub struct ElectionTimeouts {
    pub min_timeout: u64,
    pub max_timeout: u64,
    pub heartbeat_interval: u64,
    pub election_timeout_jitter: u64,
}

/// Vote management across terms.
pub struct VoteManager {
    pub election_state: ElectionState,
    pub votes: Vec<(u64, VoteTracker)>,
    pub election_timeouts: ElectionTimeouts,
}

impl VoteManager {
    pub fn new() -> (r: Self)
        ensures
            r.election_state.in_election == false,
            r.votes@.len() == 0,
            r.election_timeouts.min_timeout == 150000,
            r.election_timeouts.max_timeout == 300000,
    {
        VoteManager {
            election_state: ElectionState::new(),
            votes: Vec::new(),
            election_timeouts: ElectionTimeouts {
                min_timeout: 150000,
                max_timeout: 300000,
                heartbeat_interval: 50000,
                election_timeout_jitter: 50000,
            },
        }
    }
}

/// The current term.
pub struct TermInfo {
    pub term: u64,
    pub started_at: u64,
    pub leader_id: Option<String>,
    pub voted_for: Option<String>,
    pub vote_timestamp: Option<u64>,
}

impl TermInfo {
    pub fn new() -> (r: Self)
        ensures
            r.term == 0,
            r.leader_id is None,
            r.voted_for is None,
    {
        TermInfo { term: 0, started_at: 0, leader_id: None, voted_for: None, vote_timestamp: None }
    }
}

/// Why a term ended.
#[derive(Clone, Copy, Debug, PartialEq, Eq, Structural)]
pub enum TermEndReason {
    NewElection,
    LeaderFailure,
    NetworkPartition,
    PlannedTransition,
}

/// One closed term.
pub struct TermRecord {
    pub term: u64,
    pub leader_id: Option<String>,
    pub duration_us: u64,
    pub entries_count: u64,
    pub ended_reason: TermEndReason,
}

/// Term bookkeeping.
pub struct TermManager {
    pub current_term: TermInfo,
    pub term_history: Vec<TermRecord>,
}

impl TermManager {
    pub fn new() -> (r: Self)
        ensures
            r.current_term.term == 0,
            r.term_history@.len() == 0,
    {
        TermManager { current_term: TermInfo::new(), term_history: Vec::new() }
    }

    /// Move to a later term, forgetting the vote.
    pub fn advance_term(&mut self, new_term: u64)
        requires
            new_term > old(self).current_term.term,
        ensures
            final(self).current_term.term == new_term,
            final(self).current_term.voted_for is None,
            final(self).term_history == old(self).term_history,
    {
        self.current_term = TermInfo {
            term: new_term,
            started_at: self.current_term.started_at,
            leader_id: None,
            voted_for: None,
            vote_timestamp: None,
        };
    }
}

/// A vote solicitation.
pub struct VoteRequest {
    pub term: u64,
    pub candidate_id: String,
    pub last_log_index: u64,
    pub last_log_term: u64,
    pub timestamp: u64,
    pub signature: Vec<u8>,
}

/// A replicated batch of entries.
pub struct AppendEntries {
    pub term: u64,
    pub leader_id: String,
    pub prev_log_index: u64,
    pub prev_log_term: u64,
    pub entries: Vec<LogEntry>,
    pub leader_commit: u64,
    pub timestamp: u64,
    pub signature: Vec<u8>,
}

/// The follower's answer to a batch.
pub struct AppendEntriesResponse {
    pub term: u64,
    pub success: bool,
    pub match_index: u64,
    pub follower_id: String,
    pub timestamp: u64,
    pub signature: Vec<u8>,
}

/// A snapshot chunk on the wire.
pub struct InstallSnapshot {
    pub term: u64,
    pub leader_id: String,
    pub last_included_index: u64,
    pub last_included_term: u64,
    pub offset: u64,
    pub data: Vec<u8>,
    pub done: bool,
    pub timestamp: u64,
    pub signature: Vec<u8>,
}

/// A leader keep-alive.
pub struct Heartbeat {
    pub term: u64,
    pub leader_id: String,
    pub timestamp: u64,
    pub signature: Vec<u8>,
}

/// The consensus messages.
pub enum RaftMessage {
    VoteRequest(VoteRequest),
    VoteResponse(VoteResponse),
    AppendEntries(AppendEntries),
    AppendEntriesResponse(AppendEntriesResponse),
    InstallSnapshot(InstallSnapshot),
    Heartbeat(Heartbeat),
}

/// A route to a peer.
pub struct MessageRoute {
    pub node_id: String,
    pub endpoint: String,
    pub encryption_key: Vec<u8>,
    pub last_success: Option<u64>,
    pub failure_count: u32,
}

/// Key-rotation bookkeeping, microseconds.
pub struct KeyRotationSchedule {
    pub rotation_interval: u64,
    pub last_rotation: u64,
    pub next_rotation: u64,
    pub key_generation: u64,
}

impl KeyRotationSchedule {
    pub fn new() -> (r: Self)
        ensures
            r.rotation_interval == 3600000000,
            r.key_generation == 0,
    {
        KeyRotationSchedule {
            rotation_interval: 3600000000,
            last_rotation: 0,
            next_rotation: 3600000000,
            key_generation: 0,
        }
    }
}

/// The ciphers peers may use.
#[derive(Clone, Copy, Debug, PartialEq, Eq, Structural)]
pub enum EncryptionAlgorithm {
    Aes256Gcm,
    ChaCha20Poly1305,
    XSalsa20Poly1305,
}

/// Peer message encryption state.
pub struct MessageEncryption {
    pub encryption_keys: Vec<(String, Vec<u8>)>,
    pub key_rotation: KeyRotationSchedule,
    pub algorithm: EncryptionAlgorithm,
}

/// Outgoing consensus traffic.
pub struct MessageDispatcher {
    pub outgoing_queue: Vec<RaftMessage>,
    pub routing: Vec<(String, MessageRoute)>,
    pub encryption: MessageEncryption,
}

impl MessageDispatcher {
    pub fn new() -> (r: Self)
        ensures
            r.outgoing_queue@.len() == 0,
            r.routing@.len() == 0,
    {
        MessageDispatcher {
            outgoing_queue: Vec::new(),
            routing: Vec::new(),
            encryption: MessageEncryption {
                encryption_keys: Vec::new(),
                key_rotation: KeyRotationSchedule::new(),
                algorithm: EncryptionAlgorithm::Aes256Gcm,
            },
        }
    }
}

/// Consensus tuning, microseconds.
pub struct ConsensusConfig {
    pub election_timeout_min: u64,
    pub election_timeout_max: u64,
    pub heartbeat_interval: u64,
    pub max_entries_per_message: usize,
    pub snapshot_threshold: u64,
    pub enable_cryptographic_verification: bool,
    pub enable_signatures: bool,
    pub quorum_size: usize,
}

/// The consensus core of one node.
pub struct TEERaftConsensus {
    pub state: RaftState,
    pub log: CryptographicLog,
    pub vote_manager: VoteManager,
    pub term_manager: TermManager,
    pub message_dispatcher: MessageDispatcher,
    pub config: ConsensusConfig,
}

impl TEERaftConsensus {
    pub fn new(config: ConsensusConfig) -> (r: Self)
        ensures
            r.state.current_term == 0,
            r.state.role == NodeRole::Follower,
            r.log.entries@.len() == 0,
            r.config == config,
    {
        TEERaftConsensus {
            state: RaftState::new(),
            log: CryptographicLog::new(),
            vote_manager: VoteManager::new(),
            term_manager: TermManager::new(),
            message_dispatcher: MessageDispatcher::new(),
            config,
        }
    }
}

/// Replication progress against the peers.
pub struct ReplicationState {
    pub local_index: u64,
    pub peer_indices: Vec<(String, u64)>,
    pub replication_lag: Vec<(String, u64)>,
    pub in_sync_replicas: Vec<String>,
    pub catch_up_mode: bool,
}

impl ReplicationState {
    pub fn new() -> (r: Self)
        ensures
            r.local_index == 0,
            r.catch_up_mode == false,
            r.in_sync_replicas@.len() == 0,
    {
        ReplicationState {
            local_index: 0,
            peer_indices: Vec::new(),
            replication_lag: Vec::new(),
            in_sync_replicas: Vec::new(),
            catch_up_mode: false,
        }
    }
}

/// What a snapshot section carries about itself.
pub struct SnapshotMetadata {
    pub snapshot_id: String,
    pub last_included_index: u64,
    pub last_included_term: u64,
    pub created_at: u64,
    pub size_bytes: u64,
    pub checksum: Vec<u8>,
}

/// A request for a snapshot transfer.
pub struct SnapshotRequest {
    pub requester: String,
    pub from_index: u64,
    pub priority: SnapshotPriority,
}

/// Snapshot transfer priorities, weakest first.
#[derive(Clone, Copy, Debug, PartialEq, Eq, Structural)]
pub enum SnapshotPriority {
    Background,
    Normal,
    Urgent,
}

/// Snapshot compression policy.
pub struct SnapshotCompression {
    pub enabled: bool,
    pub algorithm: String,
    pub compression_level: u32,
    pub minimum_size: usize,
}

/// The kinds of state change a delta carries.
#[derive(Clone, Copy, Debug, PartialEq, Eq, Structural)]
pub enum ChangeType {
    Insert,
    Modify,
    Remove,
}

/// One change inside a delta.
pub struct StateChange {
    pub change_type: ChangeType,
    pub key: String,
    pub value: Option<Vec<u8>>,
    pub version: u64,
}

/// One incremental delta between two indices.
pub struct StateDelta {
    pub from_index: u64,
    pub to_index: u64,
    pub changes: Vec<StateChange>,
    pub checksum: Vec<u8>,
}

/// How far one peer's sync has come.
pub struct SyncProgress {
    pub peer: String,
    pub synced_index: u64,
    pub target_index: u64,
    pub started_at: u64,
}

/// Batching knobs for incremental sync. Durations are microseconds.
pub struct BatchConfig {
    pub max_batch_size: usize,
    pub max_batch_time: u64,
    pub compression_threshold: usize,
    pub parallel_streams: usize,
}

/// Incremental sync state.
pub struct IncrementalSync {
    pub deltas: Vec<(String, StateDelta)>,
    pub sync_progress: Vec<(String, SyncProgress)>,
    pub batch_config: BatchConfig,
}

impl IncrementalSync {
    pub fn new() -> (r: Self)
        ensures
            r.deltas@.len() == 0,
            r.sync_progress@.len() == 0,
            r.batch_config.max_batch_size == 1000,
    {
        IncrementalSync {
            deltas: Vec::new(),
            sync_progress: Vec::new(),
            batch_config: BatchConfig {
                max_batch_size: 1000,
                max_batch_time: 1000000,
                compression_threshold: 10240,
                parallel_streams: 4,
            },
        }
    }
}

/// How conflicting replicas are reconciled.
#[derive(Clone, Copy, Debug, PartialEq, Eq, Structural)]
pub enum ResolutionStrategy {
    LastWriterWins,
    HighestTermWins,
    Manual,
}

/// One observed conflict.
pub struct ConflictRecord {
    pub key: String,
    pub local_version: u64,
    pub remote_version: u64,
    pub resolved_with: ResolutionStrategy,
    pub timestamp: u64,
}

/// A rule binding a key pattern to a strategy.
pub struct ResolutionRule {
    pub key_prefix: String,
    pub strategy: ResolutionStrategy,
}

/// Conflict-resolution state.
pub struct ConflictResolver {
    pub strategies: Vec<(String, ResolutionStrategy)>,
    pub conflict_history: Vec<ConflictRecord>,
    pub resolution_rules: Vec<ResolutionRule>,
}

impl ConflictResolver {
    pub fn new() -> (r: Self)
        ensures
            r.strategies@.len() == 0,
            r.conflict_history@.len() == 0,
            r.resolution_rules@.len() == 0,
    {
        ConflictResolver {
            strategies: Vec::new(),
            conflict_history: Vec::new(),
            resolution_rules: Vec::new(),
        }
    }
}

/// Why a failover began.
#[derive(Clone, Copy, Debug, PartialEq, Eq, Structural)]
pub enum FailoverReason {
    LeaderUnreachable,
    LeaderDegraded,
    QuorumLost,
    Manual,
}

/// The election algorithms the failover controller can run.
#[derive(Clone, Copy, Debug, PartialEq, Eq, Structural)]
pub enum ElectionAlgorithm {
    Raft,
    Bully,
    RingBased,
}

/// What a failover does next.
#[derive(Clone, Copy, Debug, PartialEq, Eq, Structural)]
pub enum FailoverAction {
    PromoteFollower,
    RestartLeader,
    WaitForQuorum,
    AlertOperator,
}

/// How wide a failure reaches.
#[derive(Clone, Copy, Debug, PartialEq, Eq, Structural)]
pub enum ImpactLevel {
    Low,
    Medium,
    High,
    Severe,
}

/// The kinds of recovery step.
#[derive(Clone, Copy, Debug, PartialEq, Eq, Structural)]
pub enum RecoveryStepType {
    RestartComponent,
    RestoreSnapshot,
    ResyncState,
    PromoteReplica,
    NotifyOperator,
}

/// The resources a recovery step needs.
pub struct ResourceRequirements {
    pub cpu_millicores: u64,
    pub memory_bytes: u64,
    pub requires_quorum: bool,
}

/// One step of a recovery plan.
pub struct RecoveryStep {
    pub step_type: RecoveryStepType,
    pub description: String,
    pub timeout_us: u64,
    pub requirements: ResourceRequirements,
}

/// One executed recovery.
pub struct RecoveryRecord {
    pub scenario: String,
    pub started_at: u64,
    pub finished_at: u64,
    pub succeeded: bool,
    pub steps_completed: usize,
}

/// The probes the health monitor can run.
#[derive(Clone, Copy, Debug, PartialEq, Eq, Structural)]
pub enum HealthCheckType {
    Heartbeat,
    ResponseTime,
    ResourceUsage,
    LogProgress,
    Custom,
}

/// A monitored component's state.
#[derive(Clone, Copy, Debug, PartialEq, Eq, Structural)]
pub enum HealthStatus {
    Healthy,
    Degraded,
    Unhealthy,
    Unknown,
}

/// One raised alert.
pub struct Alert {
    pub alert_type: AlertType,
    pub severity: AlertSeverity,
    pub component: String,
    pub message: String,
    pub raised_at: u64,
    pub acknowledged: bool,
}

/// The alert classes of the availability monitor.
#[derive(Clone, Copy, Debug, PartialEq, Eq, Structural)]
pub enum AlertType {
    NodeDown,
    LeaderLost,
    QuorumAtRisk,
    ReplicationLagging,
    AttestationFailed,
}

/// Alert severities, weakest first.
#[derive(Clone, Copy, Debug, PartialEq, Eq, Structural)]
pub enum AlertSeverity {
    Info,
    Warning,
    Error,
    Critical,
}

/// Where alerts are sent.
#[derive(Clone, Copy, Debug, PartialEq, Eq, Structural)]
pub enum AlertChannel {
    Log,
    Webhook,
    Bus,
}

/// Comparison operators of alert conditions.
#[derive(Clone, Copy, Debug, PartialEq, Eq, Structural)]
pub enum ComparisonOperator {
    GreaterThan,
    LessThan,
    EqualTo,
    NotEqualTo,
}

/// Connectives of compound alert conditions.
#[derive(Clone, Copy, Debug, PartialEq, Eq, Structural)]
pub enum LogicalOperator {
    All,
    Any,
}

/// What firing an alert rule does.
#[derive(Clone, Copy, Debug, PartialEq, Eq, Structural)]
pub enum AlertAction {
    Notify,
    Escalate,
    TriggerFailover,
    Suppress,
}

/// Health monitor knobs. Durations are microseconds.
pub struct HealthMonitorConfig {
    pub default_check_interval: u64,
    pub default_timeout: u64,
    pub history_retention: u64,
    pub alert_batch_size: usize,
    pub alert_retry_attempts: u32,
    pub enable_predictive_alerts: bool,
}

/// How partitions are detected.
#[derive(Clone, Copy, Debug, PartialEq, Eq, Structural)]
pub enum PartitionDetectionAlgorithm {
    HeartbeatLoss,
    ConnectivityMatrix,
    GossipDivergence,
}

/// How much of the cluster a partition cuts off.
#[derive(Clone, Copy, Debug, PartialEq, Eq, Structural)]
pub enum PartitionSeverity {
    Minor,
    Major,
    Split,
}

/// How a partition is healed.
#[derive(Clone, Copy, Debug, PartialEq, Eq, Structural)]
pub enum PartitionResolutionStrategy {
    WaitForHeal,
    MajoritySideContinues,
    ManualIntervention,
}

/// One detected partition transition.
pub struct PartitionEvent {
    pub event_type: PartitionEventType,
    pub affected_nodes: Vec<String>,
    pub detected_at: u64,
    pub severity: PartitionSeverity,
}

/// Partition transitions.
#[derive(Clone, Copy, Debug, PartialEq, Eq, Structural)]
pub enum PartitionEventType {
    Detected,
    Healed,
    Escalated,
}

/// How quorum ties are resolved.
#[derive(Clone, Copy, Debug, PartialEq, Eq, Structural)]
pub enum TieBreakerStrategy {
    LowestNodeId,
    HighestUptime,
    WitnessNode,
}

/// When a tie-break rule applies.
#[derive(Clone, Copy, Debug, PartialEq, Eq, Structural)]
pub enum TieBreakerCondition {
    EqualVotes,
    EqualWeight,
    SplitBrain,
}

/// One tie-break rule.
pub struct TieBreakerRule {
    pub condition: TieBreakerCondition,
    pub strategy: TieBreakerStrategy,
}

/// The tie breaker: rules and a default strategy.
pub struct TieBreaker {
    pub rules: Vec<TieBreakerRule>,
    pub default_strategy: TieBreakerStrategy,
}

impl TieBreaker {
    pub fn new() -> (r: Self)
        ensures
            r.rules@.len() == 0,
            r.default_strategy == TieBreakerStrategy::LowestNodeId,
    {
        TieBreaker { rules: Vec::new(), default_strategy: TieBreakerStrategy::LowestNodeId }
    }

    /// Resolve a tie between two candidates by the lowest node id: the
    /// lexicographically smaller id wins.
    pub fn break_tie<'a>(&self, a: &'a str, b: &'a str) -> (r: &'a str)
        ensures
            lex_lt(a@, b@) ==> r@ == a@,
            !lex_lt(a@, b@) ==> r@ == b@,
    {
        if str_lt(a, b) {
            a
        } else {
            b
        }
    }
}

/// Cluster-availability tuning. Durations are microseconds.
pub struct HAConfig {
    pub cluster_name: String,
    pub node_id: String,
    pub consensus_config: ConsensusConfig,
    pub health_monitor_config: HealthMonitorConfig,
    pub failover_timeout: u64,
    pub max_partition_time: u64,
    pub enable_automatic_recovery: bool,
    pub require_manual_failover: bool,
}

impl Default for HAConfig {
    fn default() -> (r: Self)
        ensures
            r.consensus_config.quorum_size == 3,
            r.consensus_config.heartbeat_interval == 50000,
            r.failover_timeout == 30000000,
            r.enable_automatic_recovery == true,
            r.require_manual_failover == false,
    {
        HAConfig {
            cluster_name: String::from_str("tee-cluster"),
            node_id: String::from_str("node-1"),
            consensus_config: ConsensusConfig {
                election_timeout_min: 150000,
                election_timeout_max: 300000,
                heartbeat_interval: 50000,
                max_entries_per_message: 1000,
                snapshot_threshold: 10000,
                enable_cryptographic_verification: true,
                enable_signatures: true,
                quorum_size: 3,
            },
            health_monitor_config: HealthMonitorConfig {
                default_check_interval: 5000000,
                default_timeout: 3000000,
                history_retention: 86400000000,
                alert_batch_size: 100,
                alert_retry_attempts: 3,
                enable_predictive_alerts: true,
            },
            failover_timeout: 30000000,
            max_partition_time: 300000000,
            enable_automatic_recovery: true,
            require_manual_failover: false,
        }
    }
}

/// A point-in-time view of the cluster.
pub struct ClusterStatus {
    pub cluster_name: String,
    pub total_nodes: usize,
    pub healthy_nodes: usize,
    pub current_leader: Option<String>,
    pub has_quorum: bool,
    pub in_failover: bool,
    pub last_leader_change: Option<u64>,
}

/// Errors the availability layer reports.
pub enum HAError {
    ConsensusError(String),
    ReplicationError(String),
    FailoverError(String),
    NetworkError(String),
    AttestationError(String),
    QuorumLost,
    EventSendFailed,
}

impl HAError {
    /// A short description of the error.
    pub fn describe(&self) -> (r: String)
        ensures
            self is QuorumLost ==> r@ == "cluster quorum lost"@,
            self is EventSendFailed ==> r@ == "failed to send availability event"@,
    {
        match self {
            HAError::ConsensusError(_) => String::from_str("consensus error"),
            HAError::ReplicationError(_) => String::from_str("replication error"),
            HAError::FailoverError(_) => String::from_str("failover error"),
            HAError::NetworkError(_) => String::from_str("network error"),
            HAError::AttestationError(_) => String::from_str("attestation error"),
            HAError::QuorumLost => String::from_str("cluster quorum lost"),
            HAError::EventSendFailed => String::from_str("failed to send availability event"),
        }
    }
}

} // verus!
