//! The decisions of a client connection: for each packet the client sends,
//! how the connection's state changes and what the server sends back.
//! Reading and writing the socket, the clock and waiting are left to the
//! caller, which performs the steps this module decides.
use crate::buf::buf_bytes;
use crate::protocol::error::DecodeError;
use crate::protocol::packets::{
    create_empty_registries, empty_registry_plan, packs_view, registry_follows,
    spec_decode_handshake, spec_decode_known_packs, spec_decode_login_start,
    ChunkBatchFinishedPacket, ClientboundPingPacket, FeatureFlagsPacket, HandshakePacket,
    JoinGamePacket, KeepAliveClientboundPacket, LoginStartPacket, LoginSuccessPacket,
    MapChunkPacket, PackFields, RegistryDataPacket, SelectKnownPacksPacket,
    SelectKnownPacksServerboundPacket, SimulationDistancePacket, TagsPacket,
    UpdateViewDistancePacket, UpdateViewPositionPacket, ConfirmTeleportPacket,
};
use crate::protocol::packet::Packet;
use crate::protocol::varint::{read_varint, VarInt};
use crate::world::chunk::{build_flat_heightmap, flat_heightmap};
use crate::world::generation::{flat_column_bytes, generate_flat_chunk, lemma_flat_column_bytes};
use bytes::BytesMut;
use vstd::prelude::*;
use vstd::string::StringExecFns;
use vstd::utf8::encode_utf8;

verus! {

/// Packet ids the server reacts to, by state.
pub const HS_HANDSHAKE_ID: i32 = 0x00;

pub const LOGIN_START_ID: i32 = 0x00;

pub const LOGIN_LOGIN_ACKNOWLEDGED_ID: i32 = 0x03;

pub const CONFIG_CLIENT_INFORMATION_ID: i32 = 0x00;

pub const CONFIG_DISCONNECT_ID: i32 = 0x02;

pub const CONFIG_PONG_ID: i32 = 0x05;

pub const CONFIG_ACK_FINISH_ID: i32 = 0x03;

pub const CONFIG_SELECT_KNOWN_PACKS_ID: i32 = 0x07;

pub const PLAY_CONFIRM_TELEPORT_ID: i32 = 0x00;

pub const PLAY_KEEPALIVE_SERVERBOUND_ID: i32 = 0x1B;

/// The id of the configuration ping the server sends after login.
pub const CONFIG_PING_ID: i32 = 123456;

/// Where the player spawns: the spawn block.
pub const SPAWN_BLOCK_X: i32 = 8;

pub const SPAWN_BLOCK_Y: i32 = 20;

pub const SPAWN_BLOCK_Z: i32 = 8;

/// The state of one client connection. `state` is the protocol state as a
/// number: 0 handshake, 2 login, 3 configuration, 4 play; with any other
/// value the connection ends at the next packet.
pub struct Session {
    pub state: i32,
    pub player_name: String,
    pub player_uuid: [u8; 16],
    pub last_keepalive_id: i64,
    pub teleport_id: i32,
    pub got_client_info: bool,
    pub got_known_packs_ack: bool,
    pub sent_known_packs: bool,
    pub sent_finish: bool,
}

/// Something the server sends. Packets that carry floating-point values
/// are described by their other fields; their floats are fixed (see each
/// variant).
pub enum Outgoing {
    LoginSuccess(LoginSuccessPacket),
    Ping(ClientboundPingPacket),
    KnownPacks(SelectKnownPacksPacket),
    Registry(RegistryDataPacket),
    FeatureFlags(FeatureFlagsPacket),
    Tags(TagsPacket),
    FinishConfiguration,
    JoinGame(JoinGamePacket),
    /// A game event with value 0.0.
    GameEvent { event: u8 },
    ViewPosition(UpdateViewPositionPacket),
    ViewDistance(UpdateViewDistancePacket),
    SimulationDistance(SimulationDistancePacket),
    ChunkBatchStart,
    MapChunk(MapChunkPacket),
    ChunkBatchFinished(ChunkBatchFinishedPacket),
    /// The default spawn position in the overworld, with yaw and pitch 0.0.
    SpawnPosition { x: i32, y: i32, z: i32 },
    /// The player's position: the spawn point (8.5, 20.0, 8.5), no motion,
    /// yaw and pitch 0.0, no flags.
    PlayerPosition { teleport_id: i32 },
    /// The player's abilities, flying speed 0.05 and field of view 0.1.
    Abilities { flags: u8 },
    /// A keep-alive whose id is the time in milliseconds when it is sent,
    /// after waiting `delay_ms`; the id is to be recorded with
    /// `Session::keep_alive_sent`.
    KeepAlive { delay_ms: u64 },
}

/// What the connection does after a packet.
pub enum Step {
    /// Send these, in order, and read on.
    Continue(Vec<Outgoing>),
    /// End the connection normally.
    Close,
    /// End the connection with this error.
    Fail(DecodeError),
}

/// The kinds of `Outgoing`, with the values a step fixes.
pub enum Expect {
    LoginSuccess,
    Ping { id: i32 },
    KnownPacks,
    Registry { index: usize },
    FeatureFlags,
    Tags,
    FinishConfiguration,
    JoinGame,
    GameEvent { event: u8 },
    ViewPosition { x: i32, z: i32 },
    ViewDistance { d: i32 },
    SimulationDistance { d: i32 },
    ChunkBatchStart,
    MapChunk { x: i32, z: i32 },
    ChunkBatchFinished { size: i32 },
    SpawnPosition { x: i32, y: i32, z: i32 },
    PlayerPosition { teleport_id: i32 },
    Abilities { flags: u8 },
    KeepAlive { delay_ms: u64 },
}

/// The join-game packet the server sends: entity 1, not hardcore, the
/// overworld as the one dimension, 20 players, view and simulation
/// distance 8, respawn screen on, dimension type 0, seed 0, creative
/// (previous mode none), a flat world, sea level 63.
pub open spec fn is_server_join(p: JoinGamePacket) -> bool {
    &&& p.entity_id == 1
    &&& !p.is_hardcore
    &&& p.dimensions@.len() == 1
    &&& p.dimensions@[0]@ == "minecraft:overworld"@
    &&& p.max_players.0 == 20
    &&& p.view_distance.0 == 8
    &&& p.simulation_distance.0 == 8
    &&& !p.reduced_debug_info
    &&& p.enable_respawn_screen
    &&& !p.do_limited_crafting
    &&& p.dimension_type.0 == 0
    &&& p.dimension_name@ == "minecraft:overworld"@
    &&& p.hashed_seed == 0
    &&& p.gamemode == 1
    &&& p.previous_gamemode == -1
    &&& !p.is_debug
    &&& p.is_flat
    &&& p.portal_cooldown.0 == 0
    &&& p.sea_level.0 == 63
}

/// The tags the server sends: the timeline registry with one tag,
/// `minecraft:in_overworld`, holding id 0.
pub open spec fn is_server_tags(p: TagsPacket) -> bool {
    &&& p.tags@.len() == 1
    &&& p.tags@[0].0@ == "minecraft:timeline"@
    &&& p.tags@[0].1@.len() == 1
    &&& p.tags@[0].1@[0].0@ == "minecraft:in_overworld"@
    &&& p.tags@[0].1@[0].1@ == seq![0i32]
}

/// Whether `o` is of the kind, and has the values, that `e` fixes.
pub open spec fn outgoing_is(o: Outgoing, e: Expect) -> bool {
    match e {
        Expect::LoginSuccess => o is LoginSuccess,
        Expect::Ping { id } => o matches Outgoing::Ping(p) && p.id == id,
        Expect::KnownPacks => o matches Outgoing::KnownPacks(p) && packs_view(p.packs@) == seq![
            ("minecraft"@, "core"@, "1.21.11"@),
        ],
        Expect::Registry { index } => o matches Outgoing::Registry(p) && registry_follows(
            p,
            empty_registry_plan()[index as int],
        ),
        Expect::FeatureFlags => o matches Outgoing::FeatureFlags(p) && p.features@.len() == 0,
        Expect::Tags => o matches Outgoing::Tags(p) && is_server_tags(p),
        Expect::FinishConfiguration => o is FinishConfiguration,
        Expect::JoinGame => o matches Outgoing::JoinGame(p) && is_server_join(p),
        Expect::GameEvent { event } => o matches Outgoing::GameEvent { event: e2 } && e2 == event,
        Expect::ViewPosition { x, z } => o matches Outgoing::ViewPosition(p) && p.chunk_x.0 == x
            && p.chunk_z.0 == z,
        Expect::ViewDistance { d } => o matches Outgoing::ViewDistance(p) && p.view_distance.0 == d,
        Expect::SimulationDistance { d } => o matches Outgoing::SimulationDistance(p)
            && p.simulation_distance.0 == d,
        Expect::ChunkBatchStart => o is ChunkBatchStart,
        Expect::MapChunk { x, z } => o matches Outgoing::MapChunk(p) && p.x == x && p.z == z
            && p.motion_blocking_heightmap@ == flat_heightmap(15) && p.chunk_data@
            == flat_column_bytes(),
        Expect::ChunkBatchFinished { size } => o matches Outgoing::ChunkBatchFinished(p)
            && p.batch_size.0 == size,
        Expect::SpawnPosition { x, y, z } => o matches Outgoing::SpawnPosition {
            x: x2,
            y: y2,
            z: z2,
        } && x2 == x && y2 == y && z2 == z,
        Expect::PlayerPosition { teleport_id } => o matches Outgoing::PlayerPosition {
            teleport_id: t,
        } && t == teleport_id,
        Expect::Abilities { flags } => o matches Outgoing::Abilities { flags: f } && f == flags,
        Expect::KeepAlive { delay_ms } => o matches Outgoing::KeepAlive { delay_ms: d } && d
            == delay_ms,
    }
}

/// Whether the list `v` holds, in order, what `e` describes.
pub open spec fn outgoing_are(v: Seq<Outgoing>, e: Seq<Expect>) -> bool {
    &&& v.len() == e.len()
    &&& forall|i: int| 0 <= i < v.len() ==> outgoing_is(#[trigger] v[i], e[i])
}

/// What the server sends to end the configuration: every registry of
/// `empty_registry_plan`, no feature flags, the timeline tags, and the
/// finish packet.
pub open spec fn configuration_sequence() -> Seq<Expect> {
    Seq::new(14, |i: int| Expect::Registry { index: i as usize }) + seq![
        Expect::FeatureFlags,
        Expect::Tags,
        Expect::FinishConfiguration,
    ]
}

/// What the server sends on entering play: the join, the game event that
/// starts waiting for chunks, the view centre and distances, a batch of the
/// nine flat columns around the origin (x varying slowest), the spawn, the
/// player's position and abilities, and a first keep-alive.
pub open spec fn play_bootstrap() -> Seq<Expect> {
    seq![
        Expect::JoinGame,
        Expect::GameEvent { event: 13 },
        Expect::ViewPosition { x: 0, z: 0 },
        Expect::ViewDistance { d: 2 },
        Expect::SimulationDistance { d: 2 },
        Expect::ChunkBatchStart,
    ] + Seq::new(9, |k: int| Expect::MapChunk { x: (k / 3 - 1) as i32, z: (k % 3 - 1) as i32 })
        + seq![
        Expect::ChunkBatchFinished { size: 9 },
        Expect::SpawnPosition { x: SPAWN_BLOCK_X, y: SPAWN_BLOCK_Y, z: SPAWN_BLOCK_Z },
        Expect::PlayerPosition { teleport_id: 1 },
        Expect::Abilities { flags: 4 },
        Expect::KeepAlive { delay_ms: 0 },
    ]
}

/// Whether some pack is `minecraft:core`.
pub open spec fn has_core_pack(packs: Seq<PackFields>) -> bool {
    exists|j: int| 0 <= j < packs.len() && (#[trigger] packs[j]).0 == "minecraft"@ && packs[j].1 == "core"@
}

/// Whether the step continues and sends what `e` describes.
pub open spec fn continues_with(step: Step, e: Seq<Expect>) -> bool {
    step matches Step::Continue(v) && outgoing_are(v@, e)
}

impl Session {
    /// The session with the state changed, and all else kept.
    pub open spec fn with_state(self, state: i32) -> Session {
        Session { state, ..self }
    }

    /// Where handling packet `id` with body `d` makes the reader give up
    /// (an overlong VarInt, or a string length past the end).
    pub open spec fn handle_gives_up(self, id: i32, d: Seq<u8>) -> bool {
        if self.state == 0 {
            id == HS_HANDSHAKE_ID && spec_decode_handshake(d) is None
        } else if self.state == 2 {
            id == LOGIN_START_ID && spec_decode_login_start(d) is None
        } else if self.state == 3 {
            id == CONFIG_SELECT_KNOWN_PACKS_ID && spec_decode_known_packs(d) is None
        } else if self.state == 4 {
            id == PLAY_CONFIRM_TELEPORT_ID && read_varint(d) is Overlong
        } else {
            false
        }
    }

    /// Whether the configuration ends now: both the client information and
    /// the known packs have arrived and the end was not sent yet.
    pub open spec fn ready_to_finish(self) -> bool {
        self.got_client_info && self.got_known_packs_ack && !self.sent_finish
    }

    /// The session once the end of the configuration is sent, where it is.
    pub open spec fn after_finish(self) -> Session {
        if self.ready_to_finish() {
            Session { sent_finish: true, ..self }
        } else {
            self
        }
    }

    /// What ending the configuration sends, where it ends now.
    pub open spec fn finish_expect(self) -> Seq<Expect> {
        if self.ready_to_finish() {
            configuration_sequence()
        } else {
            seq![]
        }
    }

    /// How handling packet `id` with body `d` in session `s0` changes the
    /// session to `s1` and what step it takes, where the reader does not
    /// give up.
    pub open spec fn handled(s0: Session, s1: Session, id: i32, d: Seq<u8>, step: Step) -> bool {
        if s0.state == 0 {
            if id == HS_HANDSHAKE_ID {
                match spec_decode_handshake(d) {
                    Some((Ok(f), _)) => continues_with(step, seq![]) && s1 == s0.with_state(f.3),
                    Some((Err(e), _)) => step == Step::Fail(e) && s1 == s0,
                    None => false,
                }
            } else {
                continues_with(step, seq![]) && s1 == s0
            }
        } else if s0.state == 2 {
            if id == LOGIN_START_ID {
                match spec_decode_login_start(d) {
                    Some((Ok(f), _)) => {
                        &&& s1.player_name@ == f.0
                        &&& s1.player_uuid@ == f.1
                        &&& s1 == Session { player_name: s1.player_name, player_uuid: s1.player_uuid, ..s0 }
                        &&& step matches Step::Continue(v) && outgoing_are(v@, seq![Expect::LoginSuccess])
                            && (v@[0] matches Outgoing::LoginSuccess(p) && p.uuid@ == f.1
                            && p.username@ == f.0)
                    },
                    Some((Err(e), _)) => step == Step::Fail(e) && s1 == s0,
                    None => false,
                }
            } else if id == LOGIN_LOGIN_ACKNOWLEDGED_ID {
                continues_with(step, seq![Expect::Ping { id: CONFIG_PING_ID }]) && s1
                    == s0.with_state(3)
            } else {
                continues_with(step, seq![]) && s1 == s0
            }
        } else if s0.state == 3 {
            if id == CONFIG_SELECT_KNOWN_PACKS_ID {
                match spec_decode_known_packs(d) {
                    Some((Ok(packs), _)) => if has_core_pack(packs) {
                        let s = Session { got_known_packs_ack: true, ..s0 };
                        continues_with(step, s.finish_expect()) && s1 == s.after_finish()
                    } else {
                        step == Step::Close && s1 == s0
                    },
                    Some((Err(_), _)) => continues_with(step, seq![]) && s1 == s0,
                    None => false,
                }
            } else if id == CONFIG_CLIENT_INFORMATION_ID {
                let s = Session {
                    got_client_info: true,
                    sent_known_packs: true,
                    ..s0
                };
                let before = if s0.sent_known_packs {
                    seq![]
                } else {
                    seq![Expect::KnownPacks]
                };
                continues_with(step, before + s.finish_expect()) && s1 == s.after_finish()
            } else if id == CONFIG_ACK_FINISH_ID {
                continues_with(step, play_bootstrap()) && s1 == Session {
                    state: 4,
                    teleport_id: 1,
                    ..s0
                }
            } else {
                continues_with(step, seq![]) && s1 == s0
            }
        } else if s0.state == 4 {
            if id == PLAY_KEEPALIVE_SERVERBOUND_ID {
                continues_with(step, seq![Expect::KeepAlive { delay_ms: 300 }]) && s1 == s0
            } else {
                continues_with(step, seq![]) && s1 == s0
            }
        } else {
            step == Step::Close && s1 == s0
        }
    }

    /// A new connection, in the handshake state.
    pub fn new() -> (s: Self)
        ensures
            s.state == 0,
            s.player_name@ == Seq::<char>::empty(),
            s.player_uuid@ == Seq::new(16, |i: int| 0u8),
            s.last_keepalive_id == -1,
            s.teleport_id == 0,
            !s.got_client_info,
            !s.got_known_packs_ack,
            !s.sent_known_packs,
            !s.sent_finish,
    {
        let player_uuid = [0u8; 16];
        assert(player_uuid@ =~= Seq::new(16, |i: int| 0u8));
        Session {
            state: 0,
            player_name: String::new(),
            player_uuid,
            last_keepalive_id: -1,
            teleport_id: 0,
            got_client_info: false,
            got_known_packs_ack: false,
            sent_known_packs: false,
            sent_finish: false,
        }
    }

    /// Records the id of a keep-alive about to be sent, and gives the packet.
    pub fn keep_alive_sent(&mut self, id: i64) -> (p: KeepAliveClientboundPacket)
        ensures
            p.id == id,
            *final(self) == (Session { last_keepalive_id: id, ..*old(self) }),
    {
        self.last_keepalive_id = id;
        KeepAliveClientboundPacket { id }
    }

    /// Handles a packet of the client: its id and body. The result is None
    /// exactly where the reader gives up on the body (`handle_gives_up`),
    /// and the session is then unchanged; otherwise the session and the
    /// step are as `handled` says.
    pub fn handle(&mut self, id: i32, data: BytesMut) -> (r: Option<Step>)
        ensures
            r is None <==> old(self).handle_gives_up(id, buf_bytes(data)),
            r is None ==> *final(self) == *old(self),
            r matches Some(step) ==> Self::handled(*old(self), *final(self), id, buf_bytes(data), step),
    {
        let mut data = data;
        if self.state == 0 {
            if id == HS_HANDSHAKE_ID {
                match HandshakePacket::try_decode(&mut data) {
                    None => None,
                    Some(Err(e)) => Some(Step::Fail(e)),
                    Some(Ok(hs)) => {
                        self.state = hs.next_state;
                        Some(Step::Continue(Vec::new()))
                    },
                }
            } else {
                Some(Step::Continue(Vec::new()))
            }
        } else if self.state == 2 {
            if id == LOGIN_START_ID {
                match LoginStartPacket::try_decode(&mut data) {
                    None => None,
                    Some(Err(e)) => Some(Step::Fail(e)),
                    Some(Ok(login_start)) => {
                        self.player_name = login_start.name.clone();
                        self.player_uuid = login_start.uuid;
                        let mut out = Vec::new();
                        out.push(
                            Outgoing::LoginSuccess(
                                LoginSuccessPacket {
                                    uuid: self.player_uuid,
                                    username: self.player_name.clone(),
                                },
                            ),
                        );
                        Some(Step::Continue(out))
                    },
                }
            } else if id == LOGIN_LOGIN_ACKNOWLEDGED_ID {
                self.state = 3;
                let mut out = Vec::new();
                out.push(Outgoing::Ping(ClientboundPingPacket { id: CONFIG_PING_ID }));
                Some(Step::Continue(out))
            } else {
                Some(Step::Continue(Vec::new()))
            }
        } else if self.state == 3 {
            self.handle_configuration(id, data)
        } else if self.state == 4 {
            if id == PLAY_KEEPALIVE_SERVERBOUND_ID {
                let mut out = Vec::new();
                out.push(Outgoing::KeepAlive { delay_ms: 300 });
                Some(Step::Continue(out))
            } else if id == PLAY_CONFIRM_TELEPORT_ID {
                match ConfirmTeleportPacket::try_decode(&mut data) {
                    None => None,
                    Some(_) => Some(Step::Continue(Vec::new())),
                }
            } else {
                Some(Step::Continue(Vec::new()))
            }
        } else {
            Some(Step::Close)
        }
    }

    fn handle_configuration(&mut self, id: i32, data: BytesMut) -> (r: Option<Step>)
        requires
            old(self).state == 3,
        ensures
            r is None <==> old(self).handle_gives_up(id, buf_bytes(data)),
            r is None ==> *final(self) == *old(self),
            r matches Some(step) ==> Self::handled(*old(self), *final(self), id, buf_bytes(data), step),
    {
        let mut data = data;
        if id == CONFIG_SELECT_KNOWN_PACKS_ID {
            match SelectKnownPacksServerboundPacket::try_decode(&mut data) {
                None => None,
                Some(Err(_)) => Some(Step::Continue(Vec::new())),
                Some(Ok(pkt)) => {
                    if !has_core(&pkt) {
                        return Some(Step::Close);
                    }
                    self.got_known_packs_ack = true;
                    let mut out = Vec::new();
                    let ghost empty = out@;
                    self.finish_if_ready(&mut out);
                    proof {
                        assert(outgoing_are(empty, Seq::<Expect>::empty()));
                        let ghost fe = (Session { got_known_packs_ack: true, ..*old(self) }).finish_expect();
                        lemma_appended(empty, out@, Seq::<Expect>::empty(), fe);
                        assert(Seq::<Expect>::empty() + fe =~= fe);
                        assert(outgoing_are(out@, fe));
                    }
                    Some(Step::Continue(out))
                },
            }
        } else if id == CONFIG_CLIENT_INFORMATION_ID {
            self.got_client_info = true;
            let mut out = Vec::new();
            let ghost before: Seq<Expect> = if old(self).sent_known_packs {
                seq![]
            } else {
                seq![Expect::KnownPacks]
            };
            if !self.sent_known_packs {
                out.push(Outgoing::KnownPacks(core_pack_offer()));
                self.sent_known_packs = true;
            }
            assert(outgoing_are(out@, before));
            let ghost mid = out@;
            let ghost s = *self;
            self.finish_if_ready(&mut out);
            proof {
                lemma_appended(mid, out@, before, s.finish_expect());
                assert(s == (Session { got_client_info: true, sent_known_packs: true, ..*old(self) }));
                assert(*self == s.after_finish());
            }
            Some(Step::Continue(out))
        } else if id == CONFIG_ACK_FINISH_ID {
            self.state = 4;
            self.teleport_id = 1;
            let mut out = Vec::new();
            let ghost empty = out@;
            push_play_bootstrap(&mut out);
            proof {
                lemma_appended(empty, out@, Seq::<Expect>::empty(), play_bootstrap());
                assert(Seq::<Expect>::empty() + play_bootstrap() =~= play_bootstrap());
            }
            Some(Step::Continue(out))
        } else {
            Some(Step::Continue(Vec::new()))
        }
    }

    fn finish_if_ready(&mut self, out: &mut Vec<Outgoing>)
        ensures
            *final(self) == old(self).after_finish(),
            appended(old(out)@, final(out)@, old(self).finish_expect()),
    {
        if self.got_client_info && self.got_known_packs_ack && !self.sent_finish {
            push_configuration_sequence(out);
            self.sent_finish = true;
        } else {
            assert(out@.take(out@.len() as int) =~= out@);
        }
    }
}

/// Whether the step sends the packet that ends the configuration.
pub open spec fn sends_finish(step: Step) -> bool {
    step matches Step::Continue(v) && exists|i: int| 0 <= i < v.len() && v[i] is FinishConfiguration
}

/// Whether the step offers the server's known packs.
pub open spec fn sends_known_packs(step: Step) -> bool {
    step matches Step::Continue(v) && exists|i: int| 0 <= i < v.len() && v[i] is KnownPacks
}

/// Whether the body `d` is a known-packs answer that lists `minecraft:core`.
pub open spec fn client_offers_core(d: Seq<u8>) -> bool {
    spec_decode_known_packs(d) matches Some((Ok(packs), _)) && has_core_pack(packs)
}

/// The configuration flags of a session agree with each other: the known
/// packs are offered once the client information has arrived, and the end
/// of the configuration is sent only after both the client information and
/// the client's known packs.
pub open spec fn flags_consistent(s: Session) -> bool {
    &&& s.got_client_info ==> s.sent_known_packs
    &&& s.sent_finish ==> s.got_client_info && s.got_known_packs_ack
}

/// What a step that continues sends, by kind, for packet `id` with body `d`
/// in session `s0` (as `Session::handled` says it).
spec fn step_expect(s0: Session, id: i32, d: Seq<u8>) -> Seq<Expect> {
    if s0.state == 2 && id == LOGIN_START_ID {
        seq![Expect::LoginSuccess]
    } else if s0.state == 2 && id == LOGIN_LOGIN_ACKNOWLEDGED_ID {
        seq![Expect::Ping { id: CONFIG_PING_ID }]
    } else if s0.state == 3 && id == CONFIG_SELECT_KNOWN_PACKS_ID {
        if client_offers_core(d) {
            (Session { got_known_packs_ack: true, ..s0 }).finish_expect()
        } else {
            seq![]
        }
    } else if s0.state == 3 && id == CONFIG_CLIENT_INFORMATION_ID {
        let before = if s0.sent_known_packs {
            seq![]
        } else {
            seq![Expect::KnownPacks]
        };
        before + (Session { got_client_info: true, sent_known_packs: true, ..s0 }).finish_expect()
    } else if s0.state == 3 && id == CONFIG_ACK_FINISH_ID {
        play_bootstrap()
    } else if s0.state == 4 && id == PLAY_KEEPALIVE_SERVERBOUND_ID {
        seq![Expect::KeepAlive { delay_ms: 300 }]
    } else {
        seq![]
    }
}

proof fn lemma_step_expect(s0: Session, s1: Session, id: i32, d: Seq<u8>, v: Vec<Outgoing>)
    requires
        Session::handled(s0, s1, id, d, Step::Continue(v)),
    ensures
        outgoing_are(v@, step_expect(s0, id, d)),
{
    if s0.state == 3 && id == CONFIG_SELECT_KNOWN_PACKS_ID {
        if !client_offers_core(d) {
            assert(outgoing_are(v@, Seq::<Expect>::empty()));
        }
    }
}

proof fn lemma_configuration_sequence_kinds()
    ensures
        forall|i: int|
            0 <= i < configuration_sequence().len() ==> !(#[trigger] configuration_sequence()[i] is KnownPacks),
{
    let regs = Seq::new(14, |i: int| Expect::Registry { index: i as usize });
    let tail = seq![Expect::FeatureFlags, Expect::Tags, Expect::FinishConfiguration];
    assert forall|i: int| 0 <= i < configuration_sequence().len() implies !(
    #[trigger] configuration_sequence()[i] is KnownPacks) by {
        if i < 14 {
            assert(configuration_sequence()[i] == regs[i]);
        } else {
            assert(configuration_sequence()[i] == tail[i - 14]);
        }
    }
}

proof fn lemma_play_bootstrap_kinds()
    ensures
        forall|i: int|
            0 <= i < play_bootstrap().len() ==> !(#[trigger] play_bootstrap()[i] is FinishConfiguration)
                && !(play_bootstrap()[i] is KnownPacks),
{
    let head = play_opening();
    let cols = batch_columns(9);
    let tail = seq![
        Expect::ChunkBatchFinished { size: 9 },
        Expect::SpawnPosition { x: SPAWN_BLOCK_X, y: SPAWN_BLOCK_Y, z: SPAWN_BLOCK_Z },
        Expect::PlayerPosition { teleport_id: 1 },
        Expect::Abilities { flags: 4 },
        Expect::KeepAlive { delay_ms: 0 },
    ];
    assert(play_bootstrap() =~= head + cols + tail);
    assert forall|i: int| 0 <= i < play_bootstrap().len() implies !(
    #[trigger] play_bootstrap()[i] is FinishConfiguration) && !(play_bootstrap()[i] is KnownPacks) by {
        if i < 6 {
            assert(play_bootstrap()[i] == head[i]);
        } else if i < 15 {
            assert(play_bootstrap()[i] == cols[i - 6]);
        } else {
            assert(play_bootstrap()[i] == tail[i - 15]);
        }
    }
}

/// Where in a step's list the end of the configuration and the known-packs
/// offer can stand.
proof fn lemma_step_expect_kinds(s0: Session, id: i32, d: Seq<u8>, i: int)
    requires
        0 <= i < step_expect(s0, id, d).len(),
    ensures
        step_expect(s0, id, d)[i] is FinishConfiguration ==> s0.state == 3 && (
        (id == CONFIG_SELECT_KNOWN_PACKS_ID && client_offers_core(d) && (Session {
            got_known_packs_ack: true,
            ..s0
        }).ready_to_finish()) || (id == CONFIG_CLIENT_INFORMATION_ID && (Session {
            got_client_info: true,
            sent_known_packs: true,
            ..s0
        }).ready_to_finish())),
        step_expect(s0, id, d)[i] is KnownPacks ==> s0.state == 3 && id == CONFIG_CLIENT_INFORMATION_ID
            && !s0.sent_known_packs,
{
    let e = step_expect(s0, id, d);
    lemma_configuration_sequence_kinds();
    lemma_play_bootstrap_kinds();
    if s0.state == 3 && id == CONFIG_CLIENT_INFORMATION_ID {
        let before: Seq<Expect> = if s0.sent_known_packs {
            seq![]
        } else {
            seq![Expect::KnownPacks]
        };
        let s = Session { got_client_info: true, sent_known_packs: true, ..s0 };
        if i >= before.len() {
            assert(e[i] == s.finish_expect()[i - before.len()]);
            assert(s.ready_to_finish());
        } else {
            assert(e[i] == before[i]);
        }
    }
}

/// What a single packet does to the configuration: the end of the
/// configuration is sent only in the configuration state, only once both
/// the client information and the client's known packs (with
/// `minecraft:core`) have arrived, and only where it was not sent before;
/// the known packs are offered only in answer to the client information
/// and only where they were not offered before. Every flag, once set, stays
/// set, and the two received flags are set only by their own packets.
pub proof fn lemma_configuration_step(s0: Session, s1: Session, id: i32, d: Seq<u8>, step: Step)
    requires
        Session::handled(s0, s1, id, d, step),
    ensures
        sends_finish(step) ==> s0.state == 3 && !s0.sent_finish && s1.sent_finish
            && s1.got_client_info && s1.got_known_packs_ack,
        sends_known_packs(step) ==> s0.state == 3 && id == CONFIG_CLIENT_INFORMATION_ID
            && !s0.sent_known_packs && s1.sent_known_packs && s1.got_client_info,
        s0.got_client_info ==> s1.got_client_info,
        s0.got_known_packs_ack ==> s1.got_known_packs_ack,
        s0.sent_known_packs ==> s1.sent_known_packs,
        s0.sent_finish ==> s1.sent_finish,
        !s0.got_client_info && s1.got_client_info ==> s0.state == 3 && id == CONFIG_CLIENT_INFORMATION_ID,
        !s0.got_known_packs_ack && s1.got_known_packs_ack ==> s0.state == 3 && id
            == CONFIG_SELECT_KNOWN_PACKS_ID && client_offers_core(d),
{
    if let Step::Continue(v) = step {
        lemma_step_expect(s0, s1, id, d, v);
        let e = step_expect(s0, id, d);
        if sends_finish(step) {
            let i = choose|i: int| 0 <= i < v@.len() && v@[i] is FinishConfiguration;
            assert(outgoing_is(v@[i], e[i]));
            lemma_step_expect_kinds(s0, id, d, i);
        }
        if sends_known_packs(step) {
            let i = choose|i: int| 0 <= i < v@.len() && v@[i] is KnownPacks;
            assert(outgoing_is(v@[i], e[i]));
            lemma_step_expect_kinds(s0, id, d, i);
        }
    }
    if s0.state == 3 && id == CONFIG_SELECT_KNOWN_PACKS_ID && !s0.got_known_packs_ack
        && s1.got_known_packs_ack {
        assert(client_offers_core(d));
    }
}

/// Once a session has sent the end of the configuration, no packet makes it
/// send that end again, and the session keeps the record that it was sent.
pub proof fn lemma_configuration_ends_once(s0: Session, s1: Session, id: i32, d: Seq<u8>, step: Step)
    requires
        Session::handled(s0, s1, id, d, step),
        s0.sent_finish,
    ensures
        s1.sent_finish,
        !sends_finish(step),
{
    lemma_configuration_step(s0, s1, id, d, step);
}

/// Once a session has offered its known packs, no packet makes it offer
/// them again, and the session keeps the record that it offered them.
pub proof fn lemma_known_packs_offered_once(s0: Session, s1: Session, id: i32, d: Seq<u8>, step: Step)
    requires
        Session::handled(s0, s1, id, d, step),
        s0.sent_known_packs,
    ensures
        s1.sent_known_packs,
        !sends_known_packs(step),
{
    lemma_configuration_step(s0, s1, id, d, step);
}

/// Every packet keeps the configuration flags of a session consistent, so
/// every session that starts from `Session::new` has them consistent.
pub proof fn lemma_flags_stay_consistent(s0: Session, s1: Session, id: i32, d: Seq<u8>, step: Step)
    requires
        Session::handled(s0, s1, id, d, step),
        flags_consistent(s0),
    ensures
        flags_consistent(s1),
{
}

/// Whether sessions `ss` and steps `steps` are a run of a connection: the
/// `i`-th packet, with id `ids[i]` and body `ds[i]`, takes `ss[i]` to
/// `ss[i + 1]` with step `steps[i]`.
pub open spec fn is_run(ss: Seq<Session>, ids: Seq<i32>, ds: Seq<Seq<u8>>, steps: Seq<Step>) -> bool {
    &&& ss.len() == steps.len() + 1
    &&& ids.len() == steps.len()
    &&& ds.len() == steps.len()
    &&& forall|i: int|
        0 <= i < steps.len() ==> Session::handled(ss[i], ss[i + 1], ids[i], ds[i], #[trigger] steps[i])
}

/// Whether no configuration flag of the session is set yet (as in a new
/// session).
pub open spec fn fresh_flags(s: Session) -> bool {
    !s.got_client_info && !s.got_known_packs_ack && !s.sent_known_packs && !s.sent_finish
}

proof fn lemma_run_flag_kept(
    ss: Seq<Session>,
    ids: Seq<i32>,
    ds: Seq<Seq<u8>>,
    steps: Seq<Step>,
    a: int,
    b: int,
)
    requires
        is_run(ss, ids, ds, steps),
        0 <= a <= b <= steps.len(),
    ensures
        ss[a].got_client_info ==> ss[b].got_client_info,
        ss[a].got_known_packs_ack ==> ss[b].got_known_packs_ack,
        ss[a].sent_known_packs ==> ss[b].sent_known_packs,
        ss[a].sent_finish ==> ss[b].sent_finish,
    decreases b - a,
{
    if a < b {
        assert(Session::handled(ss[a], ss[a + 1], ids[a], ds[a], steps[a]));
        lemma_configuration_step(ss[a], ss[a + 1], ids[a], ds[a], steps[a]);
        lemma_run_flag_kept(ss, ids, ds, steps, a + 1, b);
    }
}

/// Where a flag is off at `a` and on at `b`, some packet in between turned
/// it on.
proof fn lemma_run_flag_turned_on(
    ss: Seq<Session>,
    ids: Seq<i32>,
    ds: Seq<Seq<u8>>,
    steps: Seq<Step>,
    flag: spec_fn(Session) -> bool,
    a: int,
    b: int,
) -> (i: int)
    requires
        is_run(ss, ids, ds, steps),
        0 <= a <= b <= steps.len(),
        !flag(ss[a]),
        flag(ss[b]),
    ensures
        a <= i < b,
        !flag(ss[i]),
        flag(ss[i + 1]),
    decreases b - a,
{
    if flag(ss[a + 1]) {
        a
    } else {
        lemma_run_flag_turned_on(ss, ids, ds, steps, flag, a + 1, b)
    }
}

/// Over a whole connection that starts with no configuration flag set, the
/// server sends the end of the configuration at most once, and offers its
/// known packs at most once, each time in answer to the client information
/// in the configuration state; and it sends the end only after it has
/// handled, in the configuration state, both the client information and a
/// known-packs answer that lists `minecraft:core`, in either order.
pub proof fn lemma_run_configuration(ss: Seq<Session>, ids: Seq<i32>, ds: Seq<Seq<u8>>, steps: Seq<Step>)
    requires
        is_run(ss, ids, ds, steps),
        fresh_flags(ss[0]),
    ensures
        forall|i: int, j: int|
            0 <= i < j < steps.len() && sends_finish(#[trigger] steps[i]) ==> !sends_finish(
                #[trigger] steps[j],
            ),
        forall|i: int, j: int|
            0 <= i < j < steps.len() && sends_known_packs(#[trigger] steps[i]) ==> !sends_known_packs(
                #[trigger] steps[j],
            ),
        forall|j: int|
            0 <= j < steps.len() && sends_known_packs(#[trigger] steps[j]) ==> ss[j].state == 3
                && ids[j] == CONFIG_CLIENT_INFORMATION_ID,
        forall|j: int|
            0 <= j < steps.len() && sends_finish(#[trigger] steps[j]) ==> (exists|i: int|
                0 <= i <= j && ss[i].state == 3 && #[trigger] ids[i] == CONFIG_CLIENT_INFORMATION_ID)
                && (exists|i: int|
                0 <= i <= j && ss[i].state == 3 && ids[i] == CONFIG_SELECT_KNOWN_PACKS_ID
                    && #[trigger] client_offers_core(ds[i])),
{
    assert forall|i: int, j: int|
        0 <= i < j < steps.len() && sends_finish(#[trigger] steps[i]) implies !sends_finish(
            #[trigger] steps[j],
        ) by {
        lemma_configuration_step(ss[i], ss[i + 1], ids[i], ds[i], steps[i]);
        lemma_run_flag_kept(ss, ids, ds, steps, i + 1, j);
        lemma_configuration_step(ss[j], ss[j + 1], ids[j], ds[j], steps[j]);
    }
    assert forall|i: int, j: int|
        0 <= i < j < steps.len() && sends_known_packs(#[trigger] steps[i]) implies !sends_known_packs(
            #[trigger] steps[j],
        ) by {
        lemma_configuration_step(ss[i], ss[i + 1], ids[i], ds[i], steps[i]);
        lemma_run_flag_kept(ss, ids, ds, steps, i + 1, j);
        lemma_configuration_step(ss[j], ss[j + 1], ids[j], ds[j], steps[j]);
    }
    assert forall|j: int| 0 <= j < steps.len() && sends_known_packs(#[trigger] steps[j]) implies ss[j].state
        == 3 && ids[j] == CONFIG_CLIENT_INFORMATION_ID by {
        lemma_configuration_step(ss[j], ss[j + 1], ids[j], ds[j], steps[j]);
    }
    assert forall|j: int| 0 <= j < steps.len() && sends_finish(#[trigger] steps[j]) implies (exists|i: int|
        0 <= i <= j && ss[i].state == 3 && #[trigger] ids[i] == CONFIG_CLIENT_INFORMATION_ID) && (exists|
        i: int,
    |
        0 <= i <= j && ss[i].state == 3 && ids[i] == CONFIG_SELECT_KNOWN_PACKS_ID
            && #[trigger] client_offers_core(ds[i])) by {
        lemma_configuration_step(ss[j], ss[j + 1], ids[j], ds[j], steps[j]);
        let ci = lemma_run_flag_turned_on(
            ss,
            ids,
            ds,
            steps,
            |s: Session| s.got_client_info,
            0,
            j + 1,
        );
        lemma_configuration_step(ss[ci], ss[ci + 1], ids[ci], ds[ci], steps[ci]);
        assert(ids[ci] == CONFIG_CLIENT_INFORMATION_ID);
        let ki = lemma_run_flag_turned_on(
            ss,
            ids,
            ds,
            steps,
            |s: Session| s.got_known_packs_ack,
            0,
            j + 1,
        );
        lemma_configuration_step(ss[ki], ss[ki + 1], ids[ki], ds[ki], steps[ki]);
        assert(client_offers_core(ds[ki]));
    }
}

/// The registries sent in the configuration (as `create_empty_registries`
/// gives them) hold what the server's join-game packet refers to: the
/// entry at index `dimension_type` of the `minecraft:dimension_type`
/// registry has the key of the joined dimension, and the
/// `minecraft:dimension` registry lists the joined dimension, which is also
/// among the join packet's dimensions.
pub proof fn lemma_join_refers_to_sent_registries(regs: Seq<RegistryDataPacket>, p: JoinGamePacket)
    requires
        regs.len() == empty_registry_plan().len(),
        forall|i: int| 0 <= i < regs.len() ==> registry_follows(#[trigger] regs[i], empty_registry_plan()[i]),
        is_server_join(p),
    ensures
        exists|i: int|
            0 <= i < regs.len() && (#[trigger] regs[i]).registry_id@ == "minecraft:dimension_type"@ && 0
                <= p.dimension_type.0 < regs[i].entries@.len() && regs[i].entries@[p.dimension_type.0 as int].key@
                == p.dimension_name@,
        exists|i: int, j: int|
            0 <= i < regs.len() && (#[trigger] regs[i]).registry_id@ == "minecraft:dimension"@ && 0 <= j
                < regs[i].entries@.len() && (#[trigger] regs[i].entries@[j]).key@ == p.dimension_name@,
        exists|j: int| 0 <= j < p.dimensions@.len() && (#[trigger] p.dimensions@[j])@ == p.dimension_name@,
{
    let plan = empty_registry_plan();
    assert(registry_follows(regs[0], plan[0]));
    assert(regs[0].entries@[0].key@ == plan[0].1[0]);
    assert(registry_follows(regs[2], plan[2]));
    assert(regs[2].entries@[0].key@ == plan[2].1[0]);
    assert(p.dimensions@[0]@ == p.dimension_name@);
}

/// Whether `o` is a login success for the player `name` with `uuid`.
pub open spec fn is_login_success_for(o: Outgoing, name: Seq<char>, uuid: Seq<u8>) -> bool {
    match o {
        Outgoing::LoginSuccess(p) => p.username@ == name && p.uuid@ == uuid,
        _ => false,
    }
}

/// Whether `o` ends a chunk batch of `n` columns.
pub open spec fn is_batch_finished_of(o: Outgoing, n: nat) -> bool {
    match o {
        Outgoing::ChunkBatchFinished(f) => f.batch_size.0 == n,
        _ => false,
    }
}

/// Whether `o` is the flat chunk column at (x, z).
pub open spec fn is_flat_column_at(o: Outgoing, x: i32, z: i32) -> bool {
    match o {
        Outgoing::MapChunk(m) => m.x == x && m.z == z && m.chunk_data@ == flat_column_bytes(),
        _ => false,
    }
}

/// Whether the list sends the flat chunk column at (x, z).
pub open spec fn sends_flat_column_at(v: Seq<Outgoing>, x: i32, z: i32) -> bool {
    exists|i: int| 0 <= i < v.len() && is_flat_column_at(#[trigger] v[i], x, z)
}

/// Logging in echoes the client: where a session in the login state
/// handles the login start that a client wrote (name of at most
/// `i32::MAX` UTF-8 bytes), it answers with one login success that carries
/// exactly that player's name and UUID, and records them.
pub proof fn lemma_login_echoes_player(
    s0: Session,
    s1: Session,
    q: LoginStartPacket,
    rest: Seq<u8>,
    step: Step,
)
    requires
        s0.state == 2,
        encode_utf8(q.name@).len() <= i32::MAX,
        Session::handled(s0, s1, LOGIN_START_ID, q.encoded() + rest, step),
    ensures
        step matches Step::Continue(v) && v@.len() == 1 && is_login_success_for(v@[0], q.name@, q.uuid@),
        s1.player_name@ == q.name@,
        s1.player_uuid@ == q.uuid@,
        s1.state == 2,
{
    crate::protocol::packets::lemma_login_start_roundtrip(q, rest);
}

/// A handshake that a client wrote moves the session from the handshake
/// state to the handshake's next state, and sends nothing (address of at
/// most `i32::MAX` UTF-8 bytes).
pub proof fn lemma_handshake_moves_to_next_state(
    s0: Session,
    s1: Session,
    h: HandshakePacket,
    rest: Seq<u8>,
    step: Step,
)
    requires
        s0.state == 0,
        encode_utf8(h.address@).len() <= i32::MAX,
        Session::handled(s0, s1, HS_HANDSHAKE_ID, h.encoded() + rest, step),
    ensures
        s1.state == h.next_state,
        step matches Step::Continue(v) && v@.len() == 0,
{
    crate::protocol::packets::lemma_handshake_roundtrip(h, rest);
}

/// The number of chunk columns in a list of outgoing packets.
pub open spec fn count_map_chunks(v: Seq<Outgoing>) -> nat
    decreases v.len(),
{
    if v.len() == 0 {
        0
    } else {
        count_map_chunks(v.drop_last()) + if v.last() is MapChunk {
            1nat
        } else {
            0nat
        }
    }
}

proof fn lemma_count_bootstrap_chunks(v: Seq<Outgoing>, n: int)
    requires
        outgoing_are(v, play_bootstrap()),
        0 <= n <= v.len(),
    ensures
        count_map_chunks(v.take(n)) == if n <= 6 {
            0
        } else if n <= 15 {
            n - 6
        } else {
            9
        },
    decreases n,
{
    if n > 0 {
        lemma_count_bootstrap_chunks(v, n - 1);
        assert(v.take(n).drop_last() =~= v.take(n - 1));
        assert(v.take(n).last() == v[n - 1]);
        lemma_bootstrap_expect_at(n - 1);
        assert(outgoing_is(v[n - 1], play_bootstrap()[n - 1]));
    }
}

proof fn lemma_bootstrap_expect_at(i: int)
    requires
        0 <= i < 20,
    ensures
        (play_bootstrap()[i] is MapChunk) <==> (6 <= i < 15),
        6 <= i < 15 ==> play_bootstrap()[i] == (Expect::MapChunk {
            x: ((i - 6) / 3 - 1) as i32,
            z: ((i - 6) % 3 - 1) as i32,
        }),
        i == 15 ==> play_bootstrap()[i] == (Expect::ChunkBatchFinished { size: 9 }),
{
    let head = play_opening();
    let cols = batch_columns(9);
    let tail = seq![
        Expect::ChunkBatchFinished { size: 9 },
        Expect::SpawnPosition { x: SPAWN_BLOCK_X, y: SPAWN_BLOCK_Y, z: SPAWN_BLOCK_Z },
        Expect::PlayerPosition { teleport_id: 1 },
        Expect::Abilities { flags: 4 },
        Expect::KeepAlive { delay_ms: 0 },
    ];
    assert(play_bootstrap() =~= head + cols + tail);
    if i < 6 {
        assert(play_bootstrap()[i] == head[i]);
    } else if i < 15 {
        assert(play_bootstrap()[i] == cols[i - 6]);
    } else {
        assert(play_bootstrap()[i] == tail[i - 15]);
    }
}

/// Entering play sends a batch of chunk columns that announces exactly as
/// many columns as it sends, and the columns are the nine flat columns
/// around the origin, each at its own position: every position with x and
/// z in -1..=1 is sent.
pub proof fn lemma_play_batch_counts_its_columns(s0: Session, s1: Session, d: Seq<u8>, step: Step)
    requires
        s0.state == 3,
        Session::handled(s0, s1, CONFIG_ACK_FINISH_ID, d, step),
    ensures
        step matches Step::Continue(v) && (exists|i: int|
            0 <= i < v@.len() && is_batch_finished_of(#[trigger] v@[i], count_map_chunks(v@))) && (
        forall|x: i32, z: i32| -1 <= x <= 1 && -1 <= z <= 1 ==> #[trigger] sends_flat_column_at(v@, x, z)),
{
    if let Step::Continue(v) = step {
        let w = v@;
        assert(outgoing_are(w, play_bootstrap()));
        lemma_count_bootstrap_chunks(w, 20);
        assert(w.take(20) =~= w);
        lemma_bootstrap_expect_at(15);
        assert(outgoing_is(w[15], play_bootstrap()[15]));
        assert(is_batch_finished_of(w[15], count_map_chunks(w)));
        assert forall|x: i32, z: i32| -1 <= x <= 1 && -1 <= z <= 1 implies #[trigger] sends_flat_column_at(
            w,
            x,
            z,
        ) by {
            let i = 6 + 3 * (x + 1) + (z + 1);
            lemma_bootstrap_expect_at(i);
            assert(outgoing_is(w[i], play_bootstrap()[i]));
            assert((i - 6) / 3 - 1 == x && (i - 6) % 3 - 1 == z);
            assert(is_flat_column_at(w[i], x, z));
        }
    }
}

/// Whether `new` is `old` with what `e` describes appended.
pub open spec fn appended(old: Seq<Outgoing>, new: Seq<Outgoing>, e: Seq<Expect>) -> bool {
    &&& new.len() == old.len() + e.len()
    &&& new.take(old.len() as int) == old
    &&& forall|j: int| 0 <= j < e.len() ==> outgoing_is(#[trigger] new[old.len() + j], e[j])
}

proof fn lemma_appended(a: Seq<Outgoing>, b: Seq<Outgoing>, ea: Seq<Expect>, eb: Seq<Expect>)
    requires
        outgoing_are(a, ea),
        appended(a, b, eb),
    ensures
        outgoing_are(b, ea + eb),
{
    assert forall|i: int| 0 <= i < b.len() implies outgoing_is(#[trigger] b[i], (ea + eb)[i]) by {
        if i < a.len() {
            assert(b[i] == b.take(a.len() as int)[i]);
        } else {
            let j = i - a.len();
            assert(b[a.len() + j] == b[i]);
        }
    }
}

fn push_one(out: &mut Vec<Outgoing>, o: Outgoing, Ghost(e): Ghost<Expect>)
    requires
        outgoing_is(o, e),
    ensures
        appended(old(out)@, final(out)@, seq![e]),
{
    let ghost before = out@;
    out.push(o);
    assert(out@.take(before.len() as int) =~= before);
    assert(out@[before.len() as int] == o);
}

proof fn lemma_appended_chain(a: Seq<Outgoing>, b: Seq<Outgoing>, c: Seq<Outgoing>, e1: Seq<Expect>, e2: Seq<Expect>)
    requires
        appended(a, b, e1),
        appended(b, c, e2),
    ensures
        appended(a, c, e1 + e2),
{
    assert(c.take(a.len() as int) =~= b.take(a.len() as int)) by {
        assert forall|i: int| 0 <= i < a.len() implies c.take(a.len() as int)[i] == b.take(a.len() as int)[i] by {
            assert(c[i] == c.take(b.len() as int)[i]);
        }
    }
    assert forall|j: int| 0 <= j < (e1 + e2).len() implies outgoing_is(#[trigger] c[a.len() + j], (e1 + e2)[j]) by {
        if j < e1.len() {
            assert(c[a.len() + j] == c.take(b.len() as int)[a.len() + j]);
            assert(b[a.len() + j] == c[a.len() + j]);
        } else {
            let k = j - e1.len();
            assert(c[b.len() + k] == c[a.len() + j]);
        }
    }
}

/// Whether the client's packs include `minecraft:core`.
fn has_core(pkt: &SelectKnownPacksServerboundPacket) -> (r: bool)
    ensures
        r == has_core_pack(packs_view(pkt.packs@)),
{
    let minecraft = String::from_str("minecraft");
    let core = String::from_str("core");
    let ghost v = packs_view(pkt.packs@);
    let mut i: usize = 0;
    while i < pkt.packs.len()
        invariant
            i <= pkt.packs@.len(),
            v == packs_view(pkt.packs@),
            minecraft@ == "minecraft"@,
            core@ == "core"@,
            forall|j: int| 0 <= j < i ==> !((#[trigger] v[j]).0 == "minecraft"@ && v[j].1 == "core"@),
        decreases pkt.packs@.len() - i,
    {
        if pkt.packs[i].0 == minecraft && pkt.packs[i].1 == core {
            assert(v[i as int].0 == "minecraft"@ && v[i as int].1 == "core"@);
            return true;
        }
        i = i + 1;
    }
    false
}

/// The packs the server offers: the `minecraft:core` pack of 1.21.11.
fn core_pack_offer() -> (p: SelectKnownPacksPacket)
    ensures
        packs_view(p.packs@) == seq![("minecraft"@, "core"@, "1.21.11"@)],
{
    let packs = vec![
        (String::from_str("minecraft"), String::from_str("core"), String::from_str("1.21.11")),
    ];
    assert(packs_view(packs@) =~= seq![("minecraft"@, "core"@, "1.21.11"@)]);
    SelectKnownPacksPacket { packs }
}

fn push_configuration_sequence(out: &mut Vec<Outgoing>)
    ensures
        appended(old(out)@, final(out)@, configuration_sequence()),
{
    let ghost start = out@;
    assert(out@.take(start.len() as int) =~= start);
    assert(Seq::new(0, |i: int| Expect::Registry { index: i as usize }) =~= Seq::<Expect>::empty());
    let regs = create_empty_registries();
    let ghost plan = empty_registry_plan();
    let ghost all = regs@;
    for reg in it: regs.into_iter()
        invariant
            it.seq() == all,
            all.len() == 14,
            plan == empty_registry_plan(),
            forall|i: int| 0 <= i < all.len() ==> registry_follows(#[trigger] all[i], plan[i]),
            appended(start, out@, Seq::new(it.index() as nat, |i: int| Expect::Registry { index: i as usize })),
    {
        let ghost k = it.index();
        let ghost before = out@;
        proof {
            assert(reg == all[k as int]);
        }
        push_one(out, Outgoing::Registry(reg), Ghost(Expect::Registry { index: k as usize }));
        proof {
            lemma_appended_chain(start, before, out@, Seq::new(k as nat, |i: int| Expect::Registry { index: i as usize }), seq![Expect::Registry { index: k as usize }]);
            assert(Seq::new(k as nat, |i: int| Expect::Registry { index: i as usize }) + seq![Expect::Registry { index: k as usize }] =~= Seq::new((k + 1) as nat, |i: int| Expect::Registry { index: i as usize }));
        }
    }
    let ghost regs_e = Seq::new(14, |i: int| Expect::Registry { index: i as usize });
    let ghost mid = out@;
    push_one(out, Outgoing::FeatureFlags(FeatureFlagsPacket { features: Vec::new() }), Ghost(Expect::FeatureFlags));
    let ghost m1 = out@;
    proof {
        lemma_appended_chain(start, mid, m1, regs_e, seq![Expect::FeatureFlags]);
    }
    let tags = vec![
        (String::from_str("minecraft:timeline"), vec![(String::from_str("minecraft:in_overworld"), vec![0i32])]),
    ];
    assert(tags@[0].1@[0].1@ =~= seq![0i32]);
    push_one(out, Outgoing::Tags(TagsPacket { tags }), Ghost(Expect::Tags));
    let ghost m2 = out@;
    proof {
        lemma_appended_chain(start, m1, m2, regs_e + seq![Expect::FeatureFlags], seq![Expect::Tags]);
    }
    push_one(out, Outgoing::FinishConfiguration, Ghost(Expect::FinishConfiguration));
    proof {
        lemma_appended_chain(start, m2, out@, regs_e + seq![Expect::FeatureFlags] + seq![Expect::Tags], seq![Expect::FinishConfiguration]);
        assert(regs_e + seq![Expect::FeatureFlags] + seq![Expect::Tags] + seq![Expect::FinishConfiguration] =~= configuration_sequence());
    }
}

fn push_next(
    out: &mut Vec<Outgoing>,
    o: Outgoing,
    Ghost(start): Ghost<Seq<Outgoing>>,
    Ghost(done): Ghost<Seq<Expect>>,
    Ghost(e): Ghost<Expect>,
)
    requires
        appended(start, old(out)@, done),
        outgoing_is(o, e),
    ensures
        appended(start, final(out)@, done.push(e)),
{
    let ghost before = out@;
    push_one(out, o, Ghost(e));
    proof {
        lemma_appended_chain(start, before, out@, done, seq![e]);
        assert(done + seq![e] =~= done.push(e));
    }
}

/// The join-game packet of the server.
fn server_join() -> (p: JoinGamePacket)
    ensures
        is_server_join(p),
{
    JoinGamePacket {
        entity_id: 1,
        is_hardcore: false,
        dimensions: vec![String::from_str("minecraft:overworld")],
        max_players: VarInt(20),
        view_distance: VarInt(8),
        simulation_distance: VarInt(8),
        reduced_debug_info: false,
        enable_respawn_screen: true,
        do_limited_crafting: false,
        dimension_type: VarInt(0),
        dimension_name: String::from_str("minecraft:overworld"),
        hashed_seed: 0,
        gamemode: 1,
        previous_gamemode: -1,
        is_debug: false,
        is_flat: true,
        portal_cooldown: VarInt(0),
        sea_level: VarInt(63),
    }
}

/// The column packet of the flat column at (cx, cz).
fn flat_map_chunk(cx: i32, cz: i32) -> (p: MapChunkPacket)
    ensures
        p.x == cx,
        p.z == cz,
        p.motion_blocking_heightmap@ == flat_heightmap(15),
        p.chunk_data@ == flat_column_bytes(),
{
    let chunk = generate_flat_chunk(cx, cz);
    proof {
        lemma_flat_column_bytes(chunk);
    }
    let chunk_data = chunk.encode_sections();
    let motion_blocking_heightmap = build_flat_heightmap(15);
    MapChunkPacket { x: cx, z: cz, motion_blocking_heightmap, chunk_data }
}

/// The first six things sent on entering play.
pub open spec fn play_opening() -> Seq<Expect> {
    seq![
        Expect::JoinGame,
        Expect::GameEvent { event: 13 },
        Expect::ViewPosition { x: 0, z: 0 },
        Expect::ViewDistance { d: 2 },
        Expect::SimulationDistance { d: 2 },
        Expect::ChunkBatchStart,
    ]
}

/// The first `n` columns of the batch.
pub open spec fn batch_columns(n: nat) -> Seq<Expect> {
    Seq::new(n, |k: int| Expect::MapChunk { x: (k / 3 - 1) as i32, z: (k % 3 - 1) as i32 })
}

fn push_play_bootstrap(out: &mut Vec<Outgoing>)
    ensures
        appended(old(out)@, final(out)@, play_bootstrap()),
{
    let ghost start = out@;
    assert(out@.take(start.len() as int) =~= start);
    let ghost d0: Seq<Expect> = Seq::empty();
    push_next(out, Outgoing::JoinGame(server_join()), Ghost(start), Ghost(d0), Ghost(Expect::JoinGame));
    let ghost d1 = d0.push(Expect::JoinGame);
    push_next(out, Outgoing::GameEvent { event: 13 }, Ghost(start), Ghost(d1), Ghost(Expect::GameEvent { event: 13 }));
    let ghost d2 = d1.push(Expect::GameEvent { event: 13 });
    push_next(
        out,
        Outgoing::ViewPosition(UpdateViewPositionPacket { chunk_x: VarInt(0), chunk_z: VarInt(0) }),
        Ghost(start),
        Ghost(d2),
        Ghost(Expect::ViewPosition { x: 0, z: 0 }),
    );
    let ghost d3 = d2.push(Expect::ViewPosition { x: 0, z: 0 });
    push_next(
        out,
        Outgoing::ViewDistance(UpdateViewDistancePacket { view_distance: VarInt(2) }),
        Ghost(start),
        Ghost(d3),
        Ghost(Expect::ViewDistance { d: 2 }),
    );
    let ghost d4 = d3.push(Expect::ViewDistance { d: 2 });
    push_next(
        out,
        Outgoing::SimulationDistance(SimulationDistancePacket { simulation_distance: VarInt(2) }),
        Ghost(start),
        Ghost(d4),
        Ghost(Expect::SimulationDistance { d: 2 }),
    );
    let ghost d5 = d4.push(Expect::SimulationDistance { d: 2 });
    push_next(out, Outgoing::ChunkBatchStart, Ghost(start), Ghost(d5), Ghost(Expect::ChunkBatchStart));
    assert(d5.push(Expect::ChunkBatchStart) =~= play_opening());
    assert(play_opening() + batch_columns(0) =~= play_opening());
    let mut sent_chunks: i32 = 0;
    let mut cx: i32 = -1;
    while cx <= 1
        invariant
            -1 <= cx <= 2,
            sent_chunks == 3 * (cx + 1),
            appended(start, out@, play_opening() + batch_columns(sent_chunks as nat)),
        decreases 2 - cx,
    {
        let mut cz: i32 = -1;
        while cz <= 1
            invariant
                -1 <= cx <= 1,
                -1 <= cz <= 2,
                sent_chunks == 3 * (cx + 1) + (cz + 1),
                appended(start, out@, play_opening() + batch_columns(sent_chunks as nat)),
            decreases 2 - cz,
        {
            let ghost k = sent_chunks as int;
            assert(k / 3 - 1 == cx && k % 3 - 1 == cz);
            push_next(
                out,
                Outgoing::MapChunk(flat_map_chunk(cx, cz)),
                Ghost(start),
                Ghost(play_opening() + batch_columns(sent_chunks as nat)),
                Ghost(Expect::MapChunk { x: cx, z: cz }),
            );
            assert((play_opening() + batch_columns(k as nat)).push(Expect::MapChunk { x: cx, z: cz })
                =~= play_opening() + batch_columns((k + 1) as nat));
            sent_chunks = sent_chunks + 1;
            cz = cz + 1;
        }
        cx = cx + 1;
    }
    let ghost e0 = play_opening() + batch_columns(9);
    push_next(
        out,
        Outgoing::ChunkBatchFinished(ChunkBatchFinishedPacket { batch_size: VarInt(sent_chunks) }),
        Ghost(start),
        Ghost(e0),
        Ghost(Expect::ChunkBatchFinished { size: 9 }),
    );
    let ghost e1 = e0.push(Expect::ChunkBatchFinished { size: 9 });
    push_next(
        out,
        Outgoing::SpawnPosition { x: SPAWN_BLOCK_X, y: SPAWN_BLOCK_Y, z: SPAWN_BLOCK_Z },
        Ghost(start),
        Ghost(e1),
        Ghost(Expect::SpawnPosition { x: SPAWN_BLOCK_X, y: SPAWN_BLOCK_Y, z: SPAWN_BLOCK_Z }),
    );
    let ghost e2 = e1.push(Expect::SpawnPosition { x: SPAWN_BLOCK_X, y: SPAWN_BLOCK_Y, z: SPAWN_BLOCK_Z });
    push_next(out, Outgoing::PlayerPosition { teleport_id: 1 }, Ghost(start), Ghost(e2), Ghost(Expect::PlayerPosition { teleport_id: 1 }));
    let ghost e3 = e2.push(Expect::PlayerPosition { teleport_id: 1 });
    push_next(out, Outgoing::Abilities { flags: 0x04 }, Ghost(start), Ghost(e3), Ghost(Expect::Abilities { flags: 4 }));
    let ghost e4 = e3.push(Expect::Abilities { flags: 4 });
    push_next(out, Outgoing::KeepAlive { delay_ms: 0 }, Ghost(start), Ghost(e4), Ghost(Expect::KeepAlive { delay_ms: 0 }));
    assert(e4.push(Expect::KeepAlive { delay_ms: 0 }) =~= play_bootstrap());
}

} // verus!
