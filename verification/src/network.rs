//! The state of a client's connection: compression and encryption on each
//! side, and how the client answers what the server sends.

use crate::frame::{plan_frame, FramePlan, PacketEncodeError};
use crate::{CompressionLevel, CompressionThreshold, MAX_PACKET_DATA_SIZE};
use vstd::prelude::*;

verus! {

/// The compression level that the client asks for.
pub const COMPRESSION: u32 = 9;

/// What the sending side knows of its connection.
pub struct EncoderState {
    compression: Option<(CompressionThreshold, CompressionLevel)>,
    encrypted: bool,
}

impl EncoderState {
    pub closed spec fn compression_spec(&self) -> Option<(CompressionThreshold, CompressionLevel)> {
        self.compression
    }

    pub closed spec fn encrypted_spec(&self) -> bool {
        self.encrypted
    }

    /// A fresh connection: no compression, no encryption.
    pub fn new() -> (r: EncoderState)
        ensures
            r.compression_spec() is None,
            !r.encrypted_spec(),
    {
        EncoderState { compression: None, encrypted: false }
    }

    pub fn set_compression(&mut self, compression_info: (CompressionThreshold, CompressionLevel))
        ensures
            final(self).compression_spec() == Some(compression_info),
            final(self).encrypted_spec() == old(self).encrypted_spec(),
    {
        self.compression = Some(compression_info);
    }

    /// Turns encryption on; it cannot be turned on twice.
    pub fn set_encryption(&mut self)
        requires
            !old(self).encrypted_spec(),
        ensures
            final(self).encrypted_spec(),
            final(self).compression_spec() == old(self).compression_spec(),
    {
        self.encrypted = true;
    }

    pub fn is_encrypted(&self) -> (r: bool)
        ensures
            r == self.encrypted_spec(),
    {
        self.encrypted
    }

    pub fn has_compression(&self) -> (r: bool)
        ensures
            r == self.compression_spec() is Some,
    {
        self.compression.is_some()
    }

    pub fn compression(&self) -> (r: Option<(CompressionThreshold, CompressionLevel)>)
        ensures
            r == self.compression_spec(),
    {
        self.compression
    }

    /// How to frame a packet of `data_len` bytes on this connection.
    pub fn plan(&self, data_len: usize) -> (r: Result<FramePlan, PacketEncodeError>)
        ensures
            data_len > MAX_PACKET_DATA_SIZE ==> r == Err::<FramePlan, PacketEncodeError>(
                PacketEncodeError::TooLong(data_len),
            ),
            data_len <= MAX_PACKET_DATA_SIZE ==> r == Ok::<FramePlan, PacketEncodeError>(
                match self.compression_spec() {
                    None => FramePlan::Plain,
                    Some((threshold, level)) => if data_len >= threshold {
                        FramePlan::Compress(level)
                    } else {
                        FramePlan::Uncompressed
                    },
                },
            ),
    {
        plan_frame(self.compression, data_len)
    }
}

/// What the receiving side knows of its connection.
pub struct DecoderState {
    compression: Option<CompressionThreshold>,
    encrypted: bool,
}

impl DecoderState {
    pub closed spec fn compression_spec(&self) -> Option<CompressionThreshold> {
        self.compression
    }

    pub closed spec fn encrypted_spec(&self) -> bool {
        self.encrypted
    }

    /// A fresh connection: no compression, no encryption.
    pub fn new() -> (r: DecoderState)
        ensures
            r.compression_spec() is None,
            !r.encrypted_spec(),
    {
        DecoderState { compression: None, encrypted: false }
    }

    pub fn set_compression(&mut self, threshold: CompressionThreshold)
        ensures
            final(self).compression_spec() == Some(threshold),
            final(self).encrypted_spec() == old(self).encrypted_spec(),
    {
        self.compression = Some(threshold);
    }

    /// Turns decryption on; it cannot be turned on twice.
    pub fn set_encryption(&mut self)
        requires
            !old(self).encrypted_spec(),
        ensures
            final(self).encrypted_spec(),
            final(self).compression_spec() == old(self).compression_spec(),
    {
        self.encrypted = true;
    }

    pub fn is_encrypted(&self) -> (r: bool)
        ensures
            r == self.encrypted_spec(),
    {
        self.encrypted
    }

    pub fn compression(&self) -> (r: Option<CompressionThreshold>)
        ensures
            r == self.compression_spec(),
    {
        self.compression
    }
}

/// The compression that the server asked for.
#[derive(Debug, Clone, Copy, PartialEq, Eq)]
pub struct CompressionInfo {
    /// The threshold from which frames are compressed.
    pub threshold: u32,
    /// A value between `0..9`: `1` favours speed, `9` size.
    pub level: u32,
}

/// The error for a compression level above nine.
#[derive(Debug, Clone, Copy, PartialEq, Eq)]
pub struct CompressionLevelError;

impl CompressionLevelError {
    /// What the error says.
    pub fn message(&self) -> (r: String)
        ensures
            r@ == "Invalid compression Level"@,
    {
        "Invalid compression Level".to_owned()
    }
}

/// Turns compression on for both sides; the level may not pass nine.
pub fn set_compression(
    decoder: &mut DecoderState,
    encoder: &mut EncoderState,
    compression: CompressionInfo,
)
    requires
        compression.level <= 9,
    ensures
        final(decoder).compression_spec() == Some(compression.threshold as usize),
        final(decoder).encrypted_spec() == old(decoder).encrypted_spec(),
        final(encoder).compression_spec() == Some(
            (compression.threshold as usize, compression.level),
        ),
        final(encoder).encrypted_spec() == old(encoder).encrypted_spec(),
{
    decoder.set_compression(compression.threshold as usize);
    encoder.set_compression((compression.threshold as usize, compression.level));
}

/// Turns encryption on for both sides; neither may have it already.
pub fn set_encryption(decoder: &mut DecoderState, encoder: &mut EncoderState)
    requires
        !old(decoder).encrypted_spec(),
        !old(encoder).encrypted_spec(),
    ensures
        final(decoder).encrypted_spec(),
        final(encoder).encrypted_spec(),
        final(decoder).compression_spec() == old(decoder).compression_spec(),
        final(encoder).compression_spec() == old(encoder).compression_spec(),
{
    decoder.set_encryption();
    encoder.set_encryption();
}

/// The phase of a connection, which decides how packet ids are read.
#[derive(Debug, Clone, Copy, PartialEq, Eq)]
pub enum ConnectionState {
    Handshake,
    Status,
    Login,
    Configuration,
    Play,
}

/// The packets from the server that the client acts on itself.
#[derive(Debug, Clone, Copy, PartialEq, Eq)]
pub enum ServerPacket {
    EncryptionRequest { should_authenticate: bool },
    SetCompression { threshold: i32 },
    LoginSuccess,
    PingPlay { id: i32 },
    PingConfiguration { id: i32 },
    ClientboundKnownPacks,
    FinishConfiguration,
    ClientboundKeepAliveConfiguration { keep_alive_id: i64 },
    ClientboundKeepAlivePlay { keep_alive_id: i64 },
    /// Any other packet.
    Other,
}

/// What the client does in answer.
#[derive(Debug, Clone, Copy, PartialEq, Eq)]
pub enum ClientAction {
    Nothing,
    /// Make a shared secret, join the session first if `authenticate`,
    /// send the encryption response, then encrypt both sides.
    BeginEncryption { authenticate: bool },
    /// Compress both sides from now on.
    EnableCompression(CompressionInfo),
    SendLoginAcknowledged,
    SendPongPlay { id: i32 },
    SendPongConfiguration { id: i32 },
    /// Answer with the same known packs.
    SendKnownPacks,
    SendAcknowledgeFinishConfiguration,
    SendKeepAliveConfiguration { keep_alive_id: i64 },
    SendKeepAlivePlay { keep_alive_id: i64 },
}

/// A step of turning encryption on, in answer to the server's request.
#[derive(Debug, Clone, Copy, PartialEq, Eq)]
pub enum EncryptionStep {
    /// Tell the session server which session the client joins.
    JoinSession,
    /// Send the encryption response, itself not yet encrypted.
    SendEncryptionResponse,
    /// Encrypt both directions of the connection with the shared secret.
    EncryptBothSides,
}

/// The steps of `ClientAction::BeginEncryption`, in order: the session is
/// joined first when the client authenticates; the response goes out
/// unencrypted; only then do both directions switch to the shared secret.
pub fn encryption_steps(authenticate: bool) -> (r: Vec<EncryptionStep>)
    ensures
        r@ == (if authenticate {
            seq![
                EncryptionStep::JoinSession,
                EncryptionStep::SendEncryptionResponse,
                EncryptionStep::EncryptBothSides,
            ]
        } else {
            seq![EncryptionStep::SendEncryptionResponse, EncryptionStep::EncryptBothSides]
        }),
{
    let mut steps: Vec<EncryptionStep> = Vec::new();
    if authenticate {
        steps.push(EncryptionStep::JoinSession);
    }
    steps.push(EncryptionStep::SendEncryptionResponse);
    steps.push(EncryptionStep::EncryptBothSides);
    proof {
        if authenticate {
            assert(steps@ =~= seq![
                EncryptionStep::JoinSession,
                EncryptionStep::SendEncryptionResponse,
                EncryptionStep::EncryptBothSides,
            ]);
        } else {
            assert(steps@ =~= seq![
                EncryptionStep::SendEncryptionResponse,
                EncryptionStep::EncryptBothSides,
            ]);
        }
    }
    steps
}

/// The client's answer to a packet from the server, and the state after it:
/// success at login moves to configuration, the end of configuration to
/// play; the server's compression threshold is taken with level nine; a
/// session is joined only for a server that authenticates and a client that
/// has a profile.
pub fn handle_server_packet(state: ConnectionState, packet: ServerPacket, has_profile: bool) -> (r: (
    ConnectionState,
    ClientAction,
))
    ensures
        r == (match packet {
            ServerPacket::EncryptionRequest { should_authenticate } => (
                state,
                ClientAction::BeginEncryption { authenticate: should_authenticate && has_profile },
            ),
            ServerPacket::SetCompression { threshold } => (
                state,
                ClientAction::EnableCompression(
                    CompressionInfo { threshold: threshold as u32, level: COMPRESSION },
                ),
            ),
            ServerPacket::LoginSuccess => (
                ConnectionState::Configuration,
                ClientAction::SendLoginAcknowledged,
            ),
            ServerPacket::PingPlay { id } => (state, ClientAction::SendPongPlay { id }),
            ServerPacket::PingConfiguration { id } => (
                state,
                ClientAction::SendPongConfiguration { id },
            ),
            ServerPacket::ClientboundKnownPacks => (state, ClientAction::SendKnownPacks),
            ServerPacket::FinishConfiguration => (
                ConnectionState::Play,
                ClientAction::SendAcknowledgeFinishConfiguration,
            ),
            ServerPacket::ClientboundKeepAliveConfiguration { keep_alive_id } => (
                state,
                ClientAction::SendKeepAliveConfiguration { keep_alive_id },
            ),
            ServerPacket::ClientboundKeepAlivePlay { keep_alive_id } => (
                state,
                ClientAction::SendKeepAlivePlay { keep_alive_id },
            ),
            ServerPacket::Other => (state, ClientAction::Nothing),
        }),
{
    match packet {
        ServerPacket::EncryptionRequest { should_authenticate } => (
            state,
            ClientAction::BeginEncryption { authenticate: should_authenticate && has_profile },
        ),
        ServerPacket::SetCompression { threshold } => (
            state,
            ClientAction::EnableCompression(
                CompressionInfo { threshold: threshold as u32, level: COMPRESSION },
            ),
        ),
        ServerPacket::LoginSuccess => (
            ConnectionState::Configuration,
            ClientAction::SendLoginAcknowledged,
        ),
        ServerPacket::PingPlay { id } => (state, ClientAction::SendPongPlay { id }),
        ServerPacket::PingConfiguration { id } => (
            state,
            ClientAction::SendPongConfiguration { id },
        ),
        ServerPacket::ClientboundKnownPacks => (state, ClientAction::SendKnownPacks),
        ServerPacket::FinishConfiguration => (
            ConnectionState::Play,
            ClientAction::SendAcknowledgeFinishConfiguration,
        ),
        ServerPacket::ClientboundKeepAliveConfiguration { keep_alive_id } => (
            state,
            ClientAction::SendKeepAliveConfiguration { keep_alive_id },
        ),
        ServerPacket::ClientboundKeepAlivePlay { keep_alive_id } => (
            state,
            ClientAction::SendKeepAlivePlay { keep_alive_id },
        ),
        ServerPacket::Other => (state, ClientAction::Nothing),
    }
}

/// The state after the client sends a packet: a handshake moves to the
/// state it asks for; nothing else changes it.
pub fn handle_client_packet(state: ConnectionState, handshake_intent: Option<ConnectionState>) -> (r:
    ConnectionState)
    ensures
        r == match handshake_intent {
            Some(next) => next,
            None => state,
        },
{
    match handshake_intent {
        Some(next) => next,
        None => state,
    }
}

/// The time of a world.
#[derive(Default)]
pub struct WorldTime {
    pub world_age: i64,
    pub time_of_day: i64,
    pub daylight_cycle: bool,
}

} // verus!
