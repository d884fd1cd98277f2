//! The plain document model of a daemon-configuration schema that consumes
//! this engine downstream: each keyword is an optional field. Rendering to
//! and from JSON stays with the callers: a serializer's derive macros cannot
//! stand in the verified library, and nothing in the engine core reads these
//! types. Here the types carry the data alone.
use vstd::prelude::*;

verus! {



#[derive(Debug, Clone, PartialEq, Eq, Hash)]
pub enum EnsureKind {
    Present,
    Absent,
}

#[derive(Debug, Clone, PartialEq, Eq, Hash)]
pub enum YesNo {
    Yes,
    No,
}

#[derive(Debug, Clone, PartialEq, Eq, Hash)]
pub enum StringObject {
    Object{
        value: String, 
        ensure: Option<EnsureKind>
    },
    String(String)
}

#[derive(Debug, Clone, PartialEq, Eq, Hash)]
pub enum IgnoreRhosts {
    Yes,
    No,
    SHostsOnly,
}

#[derive(Debug, Clone, PartialEq, Eq, Hash)]
pub enum AddressFamily {
    INet,
    INet6,
    Any,
}

#[derive(Debug, Clone, PartialEq, Eq, Hash)]
pub enum PermitRootLogin {
    WithoutPassword,
    ProhibitPassword,
    ForcedCommandsOnly,
    Yes,
    No,
}

#[derive(Debug, Clone, PartialEq, Eq, Hash)]
pub enum Compression {
    Yes,
    No,
    Delayed,
}

#[derive(Debug, Clone, PartialEq, Eq, Hash)]
pub enum GatewayPorts {
    Yes,
    No,
    ClientSpecified,
}

#[derive(Debug, Clone, PartialEq, Eq, Hash)]
pub enum TCPFwd {
    Yes,
    No,
    All,
    Remote,
    Local,
}

#[derive(Debug, Clone, PartialEq, Eq, Hash)]
pub struct ConfigValidation {
    pub stdout: Option<String>,
    pub stderr: Option<String>,
    pub exit_code: i32,
}

#[derive(Debug, Clone, PartialEq, Eq, Hash)]
pub struct RepeatKeywordString {
    pub name: Option<String>,
    pub value: String,
    pub ensure: Option<EnsureKind>,
}

#[derive(Debug, Clone, PartialEq, Eq, Hash)]
pub struct RepeatKeywordInt {
    pub name: Option<String>,
    pub value: i32,
    pub ensure: Option<EnsureKind>,
}

// single value, boolean, repeat, match
pub struct SshdConfig {
    pub accept_env: Option<StringObject>,
    pub address_family: Option<AddressFamily>,
    pub allow_agent_forwarding: Option<StringObject>,
    pub allow_groups: Option<StringObject>,
    pub allow_stream_local_forwarding: Option<TCPFwd>,
    pub allow_tcp_forwarding: Option<TCPFwd>,
    pub allow_users: Option<StringObject>,
    pub authentication_methods: Option<StringObject>,
    pub authorized_keys_command: Option<StringObject>,
    pub authorized_keys_command_user: Option<StringObject>,
    pub authorized_keys_file: Option<StringObject>,
    pub authorized_principals_command: Option<StringObject>,
    pub authorized_principals_command_user: Option<StringObject>,
    pub authorized_principals_file: Option<StringObject>,
    pub banner: Option<StringObject>,
    pub ca_signature_algorithms: Option<StringObject>,
    pub challenge_response_authentication: Option<StringObject>,
    pub channel_timeout: Option<StringObject>,
    pub chroot_directory: Option<StringObject>,
    pub ciphers: Option<StringObject>,
    pub client_alive_count_max: Option<StringObject>,
    pub client_alive_interval: Option<StringObject>,
    pub compression: Option<Compression>,
    pub deny_groups: Option<StringObject>,
    pub deny_users: Option<StringObject>,
    pub disable_forwarding: Option<StringObject>,
    pub dsa_authentication: Option<StringObject>,
    pub expose_auth_info: Option<StringObject>,
    pub fingerprint_hash: Option<StringObject>,
    pub force_command: Option<StringObject>,
    pub gateway_ports: Option<GatewayPorts>,
    pub gss_authentication: Option<StringObject>,
    pub gss_cleanup_creds: Option<StringObject>,
    pub gss_strict_acceptor: Option<StringObject>,
    pub hostbased_accepted_algorithms: Option<StringObject>,
    pub hostbased_accepted_key_types: Option<StringObject>,
    pub hostbased_authentication: Option<StringObject>,
    pub hostbased_uses_name_from_packet_only: Option<StringObject>,
    pub host_certificate: Option<StringObject>,
    pub host_key_file: Option<StringObject>,
    pub host_dsa_key_file: Option<StringObject>,
    pub host_key_agent: Option<StringObject>,
    pub host_key_algorithms: Option<StringObject>,
    pub ignore_rhosts: Option<IgnoreRhosts>,
    pub ignore_user_known_hosts: Option<StringObject>,
    pub include_directive: Option<StringObject>,
    pub ipq_o_s: Option<StringObject>,
    pub kbd_interactive_authentication: Option<StringObject>,
    pub kerberos_authentication: Option<StringObject>,
    pub kerberos_get_afs_token: Option<StringObject>,
    pub kerberos_or_local_passwd: Option<StringObject>,
    pub kerberos_ticket_cleanup: Option<StringObject>,
    pub kex_algorithms: Option<StringObject>,
    pub listen_address: Option<StringObject>,
    pub login_grace_time: Option<StringObject>,
    pub log_level: Option<StringObject>,
    pub log_verbose: Option<StringObject>,
    pub macs: Option<StringObject>,
    pub max_auth_tries: Option<StringObject>,
    pub max_sessions: Option<StringObject>,
    pub max_startups: Option<StringObject>,
    pub moduli_file: Option<StringObject>,
    pub password_authentication: Option<YesNo>,
    pub empty_passwd: Option<StringObject>,
    pub permit_listen: Option<StringObject>,
    pub permit_open: Option<StringObject>,
    pub permit_root_login: Option<PermitRootLogin>,
    pub permit_tty: Option<StringObject>,
    pub permit_tunnel: Option<StringObject>,
    pub permit_user_environment: Option<StringObject>,
    pub permit_user_rc: Option<StringObject>,
    pub per_source_max_startups: Option<StringObject>,
    pub per_source_net_block_size: Option<StringObject>,
    pub pid_file: Option<StringObject>,
    pub port: Option<Vec<RepeatKeywordInt>>,
    pub print_last_log: Option<StringObject>,
    pub print_motd: Option<StringObject>,
    pub pubkey_accepted_algorithms: Option<StringObject>,
    pub pubkey_accepted_key_types: Option<StringObject>,
    pub pubkey_authentication: Option<StringObject>,
    pub pubkey_auth_options: Option<StringObject>,
    pub r_domain: Option<StringObject>,
    pub rekey_limit: Option<StringObject>,
    pub required_rsa_size: Option<StringObject>,
    pub revoked_keys: Option<StringObject>,
    pub security_key_provider: Option<StringObject>,
    pub set_env: Option<StringObject>,
    pub skey_authentication: Option<StringObject>,
    pub stream_local_bind_mask: Option<StringObject>,
    pub stream_local_bind_unlink: Option<StringObject>,
    pub strict_modes: Option<StringObject>,
    pub subsystem: Option<Vec<RepeatKeywordString>>,
    pub syslog_facility: Option<StringObject>,
    pub tcp_keep_alive: Option<StringObject>,
    pub trusted_user_ca_keys: Option<StringObject>,
    pub unused_connection_timeout: Option<StringObject>,
    pub use_dns: Option<StringObject>,
    pub version_addendum: Option<StringObject>,
    pub x11_display_offset: Option<StringObject>,
    pub x11_forwarding: Option<StringObject>,
    pub x11_use_localhost: Option<StringObject>,
    pub x_auth_location: Option<StringObject>,
    /// Conditional `Match` blocks, carried as the engine's own JSON-shaped
    /// values: their keyword grammar belongs to the daemon, not to this
    /// schema module.
    pub match_blocks: Option<Vec<crate::value::PropValue>>,
    pub purge: Option<bool>, 
    pub defaults: Option<Box<SshdConfig>>    
}

} // verus!
