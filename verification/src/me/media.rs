//! `javax.microedition.media` (MMAPI) — the `Player`/`Manager` state model a
//! game's sound layer drives, with the observable behavior of the Java ME
//! contract.
//!
//! The channel is modelled as state and host operations; audio is never
//! synthesized here. A real MMAPI `Player` owns one audio stream; `getState()`
//! walks the lifecycle `UNREALIZED → REALIZED → PREFETCHED → STARTED` (and
//! `CLOSED`), and the transitions that actually reach the device — `start()`,
//! `stop()`, `setLoopCount`, the `VolumeControl.setLevel` the game applies —
//! are recorded as [`HostAudioOp`]s the host later renders.
//!
//! Each player's lifecycle is independent; the game's audio manager decides
//! when to stop one track before starting another. Object references become
//! handles into an arena the runtime owns, and the ordered operation log has
//! one owner, so a caller can assert the exact sequence reaching the host.

use vstd::prelude::*;
use crate::device::{canonical_mime_spec, lists_text, same_text, MediaFragment};
use crate::jvm::JavaError;

verus! {

/// Host-visible identity of the bytes behind a player. Resource paths are the
/// preferred game-owned form; `Opaque` keeps games whose Java audio manager
/// indexed already-open streams numerically.
#[derive(Debug, PartialEq, Eq, Hash)]
pub enum MediaSource {
    Resource(String),
    Opaque(i32),
}

impl Clone for MediaSource {
    fn clone(&self) -> (r: Self)
        ensures
            r == *self,
    {
        match self {
            MediaSource::Resource(path) => MediaSource::Resource(path.clone()),
            MediaSource::Opaque(track) => MediaSource::Opaque(*track),
        }
    }
}

#[derive(Debug, Clone, Copy, PartialEq, Eq, Structural)]
pub enum PlayerEvent {
    Started,
    Stopped,
    EndOfMedia,
    Closed,
}

/// The MMAPI `Player` lifecycle states. The integer each maps to (via
/// [`PlayerState::as_mmapi_int`]) is the value `Player.getState()` returns; the
/// game compares it against `400` (`isPlaying` = `getState() >= 400`).
#[derive(Debug, Clone, Copy, PartialEq, Eq, Structural)]
pub enum PlayerState {
    /// `Player.CLOSED` (0) — released; no further calls except `close()`.
    Closed,
    /// `Player.UNREALIZED` (100) — created, not yet realized.
    Unrealized,
    /// `Player.REALIZED` (200) — media located; not prefetched.
    Realized,
    /// `Player.PREFETCHED` (300) — buffered and ready to start.
    Prefetched,
    /// `Player.STARTED` (400) — actively playing.
    Started,
}

pub open spec fn mmapi_int(state: PlayerState) -> i32 {
    match state {
        PlayerState::Closed => 0,
        PlayerState::Unrealized => 100,
        PlayerState::Realized => 200,
        PlayerState::Prefetched => 300,
        PlayerState::Started => 400,
    }
}

impl PlayerState {
    /// The integer `Player.getState()` returns for this state.
    pub fn as_mmapi_int(self) -> (r: i32)
        ensures
            r == mmapi_int(self),
    {
        match self {
            PlayerState::Closed => 0,
            PlayerState::Unrealized => 100,
            PlayerState::Realized => 200,
            PlayerState::Prefetched => 300,
            PlayerState::Started => 400,
        }
    }
}

/// A handle into the [`MediaRuntime`] player arena — a `Player` reference.
#[derive(Debug, Clone, Copy, PartialEq, Eq, Hash, Structural)]
pub struct PlayerId(pub usize);

/// One operation the state model asks the host to perform: what reaches the
/// audio device, in order. `source` is the resource or handle the player
/// renders.
#[derive(Debug, Clone, PartialEq, Eq)]
pub enum HostAudioOp {
    /// `Manager.createPlayer(stream, mime)`.
    Create { player: PlayerId, source: MediaSource, mime: String },
    /// `realize()` — media located (no sound).
    Realize { player: PlayerId },
    /// `prefetch()` — buffered ready (no sound).
    Prefetch { player: PlayerId },
    Deallocate { player: PlayerId },
    /// `setLoopCount(count)`.
    SetLoopCount { player: PlayerId, count: i32 },
    /// `start()` — begin playing the player's source (the audible op).
    Start { player: PlayerId, source: MediaSource },
    /// `stop()` — halt the player's source (the audible op).
    Stop { player: PlayerId, source: MediaSource },
    /// `VolumeControl.setLevel(level)` — the level actually applied (0..=100).
    SetVolume { player: PlayerId, level: i32 },
    SetMute { player: PlayerId, muted: bool },
    SetMediaTime { player: PlayerId, microseconds: i64 },
    /// `close()` — release the player entirely.
    Close { player: PlayerId },
}

/// One player in the arena.
#[derive(Debug, PartialEq, Eq)]
pub struct PlayerCell {
    pub state: PlayerState,
    /// The sound the player renders (what the host plays).
    pub source: MediaSource,
    pub mime: String,
    pub loop_count: i32,
    /// The `VolumeControl` level, 0..=100 (default full).
    pub volume_level: i32,
    pub muted: bool,
    pub media_time_us: i64,
    pub duration_us: Option<i64>,
    /// Whether a `PlayerListener` is attached.
    pub has_listener: bool,
}

impl Clone for PlayerCell {
    fn clone(&self) -> (r: Self)
        ensures
            r == *self,
    {
        PlayerCell {
            state: self.state,
            source: self.source.clone(),
            mime: self.mime.clone(),
            loop_count: self.loop_count,
            volume_level: self.volume_level,
            muted: self.muted,
            media_time_us: self.media_time_us,
            duration_us: self.duration_us,
            has_listener: self.has_listener,
        }
    }
}

/// The `javax.microedition.media` runtime: the player arena plus the single
/// ordered host-operation log.
#[derive(Debug)]
pub struct MediaRuntime {
    players: Vec<PlayerCell>,
    ops: Vec<HostAudioOp>,
    events: Vec<(PlayerId, PlayerEvent)>,
    capabilities: Option<MediaFragment>,
}

/// The observable state of a [`MediaRuntime`].
pub struct MediaRuntimeView {
    /// Every player ever created, indexed by its handle.
    pub players: Seq<PlayerCell>,
    /// Host operations, oldest first.
    pub ops: Seq<HostAudioOp>,
    /// Listener events, oldest first.
    pub events: Seq<(PlayerId, PlayerEvent)>,
    /// The handset's media profile; `None` admits every type and control.
    pub capabilities: Option<MediaFragment>,
}

impl View for MediaRuntime {
    type V = MediaRuntimeView;

    closed spec fn view(&self) -> MediaRuntimeView {
        MediaRuntimeView {
            players: self.players@,
            ops: self.ops@,
            events: self.events@,
            capabilities: self.capabilities,
        }
    }
}

impl Default for MediaRuntime {
    fn default() -> (r: Self)
        ensures
            r@.players.len() == 0 && r@.ops.len() == 0 && r@.events.len() == 0 && r@.capabilities is None,
    {
        Self { players: Vec::new(), ops: Vec::new(), events: Vec::new(), capabilities: None }
    }
}

/// Whether `p` names a player of `v`.
pub open spec fn valid(v: MediaRuntimeView, p: PlayerId) -> bool {
    p.0 < v.players.len()
}

/// `v` with player `p` replaced by `cell` and `op` logged.
pub open spec fn updated(v: MediaRuntimeView, p: PlayerId, cell: PlayerCell, op: HostAudioOp) -> MediaRuntimeView {
    MediaRuntimeView { players: v.players.update(p.0 as int, cell), ops: v.ops.push(op), ..v }
}

/// `v` with player `p` replaced by `cell`, nothing logged.
pub open spec fn replaced(v: MediaRuntimeView, p: PlayerId, cell: PlayerCell) -> MediaRuntimeView {
    MediaRuntimeView { players: v.players.update(p.0 as int, cell), ..v }
}

/// The failure of an operation in a state that does not allow it:
/// `IllegalStateException`.
pub open spec fn is_illegal_state<T>(r: Result<T, JavaError>) -> bool {
    r matches Err(JavaError::IllegalState(_))
}

fn illegal_state(what: &'static str) -> (r: JavaError)
    ensures
        r == JavaError::IllegalState(what),
{
    JavaError::IllegalState(what)
}

/// `level` clamped to `0..=100`, as MMAPI applies volume levels.
pub open spec fn clamp_level(level: i32) -> i32 {
    if level < 0 {
        0
    } else if level > 100 {
        100
    } else {
        level
    }
}

impl MediaRuntime {
    /// A fresh runtime with no players and an empty op log.
    pub fn new() -> (r: Self)
        ensures
            r@.players.len() == 0 && r@.ops.len() == 0 && r@.events.len() == 0 && r@.capabilities is None,
    {
        Self::default()
    }

    pub fn with_capabilities(capabilities: MediaFragment) -> (r: Self)
        ensures
            r@.players.len() == 0 && r@.ops.len() == 0 && r@.events.len() == 0,
            r@.capabilities == Some(capabilities),
    {
        Self { players: Vec::new(), ops: Vec::new(), events: Vec::new(), capabilities: Some(capabilities) }
    }

    /// The ops emitted so far, in order.
    pub fn ops(&self) -> (r: &[HostAudioOp])
        ensures
            r@ == self@.ops,
    {
        self.ops.as_slice()
    }

    /// Take (and clear) the emitted ops — e.g. between test phases.
    pub fn drain_ops(&mut self) -> (r: Vec<HostAudioOp>)
        ensures
            r@ == old(self)@.ops,
            final(self)@ == (MediaRuntimeView { ops: Seq::empty(), ..old(self)@ }),
    {
        let mut drained = Vec::new();
        std::mem::swap(&mut drained, &mut self.ops);
        proof {
            assert(self@.ops =~= Seq::<HostAudioOp>::empty());
        }
        drained
    }

    /// Clear the op log without reading it.
    pub fn clear_ops(&mut self)
        ensures
            final(self)@ == (MediaRuntimeView { ops: Seq::empty(), ..old(self)@ }),
    {
        self.ops.clear();
        proof {
            assert(self@.ops =~= Seq::<HostAudioOp>::empty());
        }
    }

    pub fn drain_events(&mut self) -> (r: Vec<(PlayerId, PlayerEvent)>)
        ensures
            r@ == old(self)@.events,
            final(self)@ == (MediaRuntimeView { events: Seq::empty(), ..old(self)@ }),
    {
        let mut drained = Vec::new();
        std::mem::swap(&mut drained, &mut self.events);
        proof {
            assert(self@.events =~= Seq::<(PlayerId, PlayerEvent)>::empty());
        }
        drained
    }

    fn cell(&self, p: PlayerId) -> (r: Result<PlayerCell, JavaError>)
        ensures
            valid(self@, p) ==> r == Ok::<PlayerCell, JavaError>(self@.players[p.0 as int]),
            !valid(self@, p) ==> r == Err::<PlayerCell, JavaError>(JavaError::NullPointer),
    {
        if p.0 < self.players.len() {
            Ok(self.players[p.0].clone())
        } else {
            Err(JavaError::NullPointer)
        }
    }

    /// `Manager.createPlayer(InputStream, mime)` — a new player for `track` (the
    /// sound's id) in the `UNREALIZED` state, which the game then `realize()`s and
    /// `prefetch()`es. Returns its handle.
    pub fn create_player(&mut self, track: i32, mime: &str) -> (r: PlayerId)
        requires
            old(self)@.players.len() < usize::MAX,
        ensures
            Self::created(old(self)@, final(self)@, r, MediaSource::Opaque(track), mime@),
    {
        self.create(MediaSource::Opaque(track), mime)
    }

    /// What creating a player does: a fresh handle, a fresh unrealized player
    /// at full volume playing once, and a `Create` operation.
    pub open spec fn created(
        before: MediaRuntimeView,
        after: MediaRuntimeView,
        id: PlayerId,
        source: MediaSource,
        mime: Seq<char>,
    ) -> bool {
        &&& id.0 == before.players.len()
        &&& after.players.len() == before.players.len() + 1
        &&& after.players.drop_last() == before.players
        &&& after.players.last() matches PlayerCell {
            state: PlayerState::Unrealized,
            source: s,
            mime: m,
            loop_count: 1,
            volume_level: 100,
            muted: false,
            media_time_us: 0,
            duration_us: None,
            has_listener: false,
        } && s == source && m@ == mime
        &&& after.ops.len() == before.ops.len() + 1
        &&& after.ops.drop_last() == before.ops
        &&& after.ops.last() matches HostAudioOp::Create { player, source: s, mime: m } && player == id && s
            == source && m@ == mime
        &&& after.events == before.events
        &&& after.capabilities == before.capabilities
    }

    /// Profile-checked `Manager.createPlayer` for a classpath resource.
    pub fn create_player_resource(&mut self, resource: &str, mime: &str) -> (r: Result<PlayerId, JavaError>)
        requires
            old(self)@.players.len() < usize::MAX,
        ensures
            resource@.len() == 0 ==> r == Err::<PlayerId, JavaError>(
                JavaError::IllegalArgument("empty media resource"),
            ),
            resource@.len() > 0 && (old(self)@.capabilities matches Some(c) && !lists_text(
                c.content_types@,
                canonical_mime_spec(c, mime@),
            )) ==> r matches Err(JavaError::Media(_)),
            r is Err ==> final(self)@ == old(self)@,
            r matches Ok(id) ==> resource@.len() > 0 && Self::created(
                old(self)@,
                final(self)@,
                id,
                MediaSource::Resource(final(self)@.players.last().source->Resource_0),
                match old(self)@.capabilities {
                    Some(c) => canonical_mime_spec(c, mime@),
                    None => mime@,
                },
            ) && final(self)@.players.last().source->Resource_0@ == resource@,
            resource@.len() > 0 && (old(self)@.capabilities matches Some(c) ==> lists_text(
                c.content_types@,
                canonical_mime_spec(c, mime@),
            )) ==> r is Ok,
    {
        if resource.is_empty() {
            return Err(JavaError::IllegalArgument("empty media resource"));
        }
        let canonical: String = match &self.capabilities {
            Some(capabilities) => {
                if !capabilities.supports_mime(mime) {
                    return Err(
                        JavaError::Media(
                            String::from_str("unsupported content type for selected device profile: ").concat(
                                mime,
                            ),
                        ),
                    );
                }
                capabilities.canonical_mime(mime).to_owned()
            },
            None => mime.to_owned(),
        };
        Ok(self.create(MediaSource::Resource(resource.to_owned()), canonical.as_str()))
    }

    fn create(&mut self, source: MediaSource, mime: &str) -> (r: PlayerId)
        requires
            old(self)@.players.len() < usize::MAX,
        ensures
            Self::created(old(self)@, final(self)@, r, source, mime@),
    {
        let id = PlayerId(self.players.len());
        self.players.push(
            PlayerCell {
                state: PlayerState::Unrealized,
                source: source.clone(),
                mime: mime.to_owned(),
                loop_count: 1,
                volume_level: 100,
                muted: false,
                media_time_us: 0,
                duration_us: None,
                has_listener: false,
            },
        );
        self.ops.push(HostAudioOp::Create { player: id, source, mime: mime.to_owned() });
        proof {
            assert(self@.players.drop_last() =~= old(self)@.players);
            assert(self@.ops.drop_last() =~= old(self)@.ops);
        }
        id
    }

    /// The sound (`track`) a player renders.
    pub fn track_of(&self, p: PlayerId) -> (r: Result<i32, JavaError>)
        ensures
            !valid(self@, p) ==> r == Err::<i32, JavaError>(JavaError::NullPointer),
            valid(self@, p) ==> match self@.players[p.0 as int].source {
                MediaSource::Opaque(track) => r == Ok::<i32, JavaError>(track),
                MediaSource::Resource(_) => r matches Err(JavaError::Media(_)),
            },
    {
        let cell = self.cell(p)?;
        match cell.source {
            MediaSource::Opaque(track) => Ok(track),
            MediaSource::Resource(_) => Err(
                JavaError::Media(String::from_str("resource player has no numeric track id")),
            ),
        }
    }

    pub fn source_of(&self, p: PlayerId) -> (r: Result<&MediaSource, JavaError>)
        ensures
            !valid(self@, p) ==> r matches Err(JavaError::NullPointer),
            valid(self@, p) ==> (r matches Ok(s) && *s == self@.players[p.0 as int].source),
    {
        if p.0 < self.players.len() {
            Ok(&self.players[p.0].source)
        } else {
            Err(JavaError::NullPointer)
        }
    }

    pub fn content_type(&self, p: PlayerId) -> (r: Result<&str, JavaError>)
        ensures
            !valid(self@, p) ==> r matches Err(JavaError::NullPointer),
            valid(self@, p) ==> (r matches Ok(s) && s@ == self@.players[p.0 as int].mime@),
    {
        if p.0 < self.players.len() {
            Ok(self.players[p.0].mime.as_str())
        } else {
            Err(JavaError::NullPointer)
        }
    }

    /// `getState()`.
    pub fn get_state(&self, p: PlayerId) -> (r: Result<i32, JavaError>)
        ensures
            !valid(self@, p) ==> r == Err::<i32, JavaError>(JavaError::NullPointer),
            valid(self@, p) ==> r == Ok::<i32, JavaError>(mmapi_int(self@.players[p.0 as int].state)),
    {
        let cell = self.cell(p)?;
        Ok(cell.state.as_mmapi_int())
    }

    /// Writes back a changed player.
    fn store(&mut self, p: PlayerId, cell: PlayerCell)
        requires
            valid(old(self)@, p),
        ensures
            final(self)@ == replaced(old(self)@, p, cell),
    {
        self.players.set(p.0, cell);
    }

    /// `addPlayerListener(...)` — the game passes itself; only the fact that a
    /// listener is attached is recorded.
    pub fn add_player_listener(&mut self, p: PlayerId) -> (r: Result<(), JavaError>)
        ensures
            !valid(old(self)@, p) ==> r == Err::<(), JavaError>(JavaError::NullPointer) && final(self)@
                == old(self)@,
            valid(old(self)@, p) ==> r is Ok && final(self)@ == replaced(
                old(self)@,
                p,
                PlayerCell { has_listener: true, ..old(self)@.players[p.0 as int] },
            ),
    {
        let mut cell = self.cell(p)?;
        cell.has_listener = true;
        self.store(p, cell);
        Ok(())
    }

    pub fn remove_player_listener(&mut self, p: PlayerId) -> (r: Result<(), JavaError>)
        ensures
            !valid(old(self)@, p) ==> r == Err::<(), JavaError>(JavaError::NullPointer) && final(self)@
                == old(self)@,
            valid(old(self)@, p) ==> r is Ok && final(self)@ == replaced(
                old(self)@,
                p,
                PlayerCell { has_listener: false, ..old(self)@.players[p.0 as int] },
            ),
    {
        let mut cell = self.cell(p)?;
        cell.has_listener = false;
        self.store(p, cell);
        Ok(())
    }

    /// Whether a listener is attached.
    pub fn has_listener(&self, p: PlayerId) -> (r: Result<bool, JavaError>)
        ensures
            !valid(self@, p) ==> r == Err::<bool, JavaError>(JavaError::NullPointer),
            valid(self@, p) ==> r == Ok::<bool, JavaError>(self@.players[p.0 as int].has_listener),
    {
        let cell = self.cell(p)?;
        Ok(cell.has_listener)
    }

    /// `realize()` — `UNREALIZED → REALIZED`; a no-op at or past REALIZED;
    /// `IllegalStateException` on a closed player.
    pub fn realize(&mut self, p: PlayerId) -> (r: Result<(), JavaError>)
        ensures
            !valid(old(self)@, p) ==> r == Err::<(), JavaError>(JavaError::NullPointer) && final(self)@
                == old(self)@,
            valid(old(self)@, p) ==> ({
                let c = old(self)@.players[p.0 as int];
                &&& c.state == PlayerState::Closed ==> is_illegal_state(r) && final(self)@ == old(self)@
                &&& c.state != PlayerState::Closed ==> r is Ok && final(self)@ == updated(
                    old(self)@,
                    p,
                    PlayerCell {
                        state: if c.state == PlayerState::Unrealized {
                            PlayerState::Realized
                        } else {
                            c.state
                        },
                        ..c
                    },
                    HostAudioOp::Realize { player: p },
                )
            }),
    {
        let mut cell = self.cell(p)?;
        if cell.state == PlayerState::Closed {
            return Err(illegal_state("realize on CLOSED"));
        }
        if cell.state == PlayerState::Unrealized {
            cell.state = PlayerState::Realized;
        }
        self.store(p, cell);
        self.ops.push(HostAudioOp::Realize { player: p });
        Ok(())
    }

    /// `prefetch()` — realizes if needed, then `→ PREFETCHED`; a no-op when
    /// already prefetched or started; `IllegalStateException` on a closed player.
    pub fn prefetch(&mut self, p: PlayerId) -> (r: Result<(), JavaError>)
        ensures
            !valid(old(self)@, p) ==> r == Err::<(), JavaError>(JavaError::NullPointer) && final(self)@
                == old(self)@,
            valid(old(self)@, p) ==> ({
                let c = old(self)@.players[p.0 as int];
                &&& c.state == PlayerState::Closed ==> is_illegal_state(r) && final(self)@ == old(self)@
                &&& c.state != PlayerState::Closed ==> r is Ok && final(self)@ == updated(
                    old(self)@,
                    p,
                    PlayerCell {
                        state: if c.state == PlayerState::Started {
                            PlayerState::Started
                        } else {
                            PlayerState::Prefetched
                        },
                        ..c
                    },
                    HostAudioOp::Prefetch { player: p },
                )
            }),
    {
        let mut cell = self.cell(p)?;
        match cell.state {
            PlayerState::Closed => return Err(illegal_state("prefetch on CLOSED")),
            PlayerState::Unrealized | PlayerState::Realized => {
                cell.state = PlayerState::Prefetched;
            },
            PlayerState::Prefetched | PlayerState::Started => {},
        }
        self.store(p, cell);
        self.ops.push(HostAudioOp::Prefetch { player: p });
        Ok(())
    }

    /// `setLoopCount(n)` — legal only before `start()`; `IllegalStateException`
    /// when STARTED or CLOSED.
    pub fn set_loop_count(&mut self, p: PlayerId, count: i32) -> (r: Result<(), JavaError>)
        ensures
            count == 0 || count < -1 ==> r == Err::<(), JavaError>(
                JavaError::IllegalArgument("setLoopCount accepts -1 or a positive count"),
            ) && final(self)@ == old(self)@,
            !(count == 0 || count < -1) && !valid(old(self)@, p) ==> r == Err::<(), JavaError>(
                JavaError::NullPointer,
            ) && final(self)@ == old(self)@,
            !(count == 0 || count < -1) && valid(old(self)@, p) ==> ({
                let c = old(self)@.players[p.0 as int];
                &&& (c.state == PlayerState::Started || c.state == PlayerState::Closed) ==> is_illegal_state(r)
                    && final(self)@ == old(self)@
                &&& !(c.state == PlayerState::Started || c.state == PlayerState::Closed) ==> r is Ok
                    && final(self)@ == updated(
                    old(self)@,
                    p,
                    PlayerCell { loop_count: count, ..c },
                    HostAudioOp::SetLoopCount { player: p, count },
                )
            }),
    {
        if count == 0 || count < -1 {
            return Err(JavaError::IllegalArgument("setLoopCount accepts -1 or a positive count"));
        }
        let mut cell = self.cell(p)?;
        if cell.state == PlayerState::Started || cell.state == PlayerState::Closed {
            return Err(illegal_state("setLoopCount when STARTED/CLOSED"));
        }
        cell.loop_count = count;
        self.store(p, cell);
        self.ops.push(HostAudioOp::SetLoopCount { player: p, count });
        Ok(())
    }

    /// `deallocate()` releases prefetched resources and returns the player to
    /// REALIZED. Hosts receive an explicit operation even when it was not
    /// started so their decoded buffer ownership stays visible.
    pub fn deallocate(&mut self, p: PlayerId) -> (r: Result<(), JavaError>)
        ensures
            !valid(old(self)@, p) ==> r == Err::<(), JavaError>(JavaError::NullPointer) && final(self)@
                == old(self)@,
            valid(old(self)@, p) ==> ({
                let c = old(self)@.players[p.0 as int];
                &&& c.state == PlayerState::Closed ==> is_illegal_state(r) && final(self)@ == old(self)@
                &&& c.state != PlayerState::Closed ==> r is Ok && final(self)@ == updated(
                    old(self)@,
                    p,
                    PlayerCell { state: PlayerState::Realized, ..c },
                    HostAudioOp::Deallocate { player: p },
                )
            }),
    {
        let mut cell = self.cell(p)?;
        if cell.state == PlayerState::Closed {
            return Err(illegal_state("deallocate on CLOSED"));
        }
        cell.state = PlayerState::Realized;
        self.store(p, cell);
        self.ops.push(HostAudioOp::Deallocate { player: p });
        Ok(())
    }

    /// `start()` — prefetches if needed, then `→ STARTED` and asks the host to
    /// play. A no-op (no op emitted) if already STARTED. `IllegalStateException`
    /// on a closed player.
    pub fn start(&mut self, p: PlayerId) -> (r: Result<(), JavaError>)
        ensures
            !valid(old(self)@, p) ==> r == Err::<(), JavaError>(JavaError::NullPointer) && final(self)@
                == old(self)@,
            valid(old(self)@, p) ==> ({
                let c = old(self)@.players[p.0 as int];
                &&& c.state == PlayerState::Closed ==> is_illegal_state(r) && final(self)@ == old(self)@
                &&& c.state == PlayerState::Started ==> r is Ok && final(self)@ == old(self)@
                &&& c.state != PlayerState::Closed && c.state != PlayerState::Started ==> r is Ok && final(self)@ == (MediaRuntimeView {
                    events: if c.has_listener {
                        old(self)@.events.push((p, PlayerEvent::Started))
                    } else {
                        old(self)@.events
                    },
                    ..updated(
                        old(self)@,
                        p,
                        PlayerCell { state: PlayerState::Started, ..c },
                        HostAudioOp::Start { player: p, source: c.source },
                    )
                })
            }),
    {
        let mut cell = self.cell(p)?;
        if cell.state == PlayerState::Closed {
            return Err(illegal_state("start on CLOSED"));
        }
        if cell.state == PlayerState::Started {
            return Ok(());
        }
        cell.state = PlayerState::Started;
        let source = cell.source.clone();
        let has_listener = cell.has_listener;
        self.store(p, cell);
        self.ops.push(HostAudioOp::Start { player: p, source });
        if has_listener {
            self.events.push((p, PlayerEvent::Started));
        }
        Ok(())
    }

    /// `stop()` — `STARTED → PREFETCHED` and asks the host to halt. A no-op (no op
    /// emitted) if not started. `IllegalStateException` on a closed player.
    pub fn stop(&mut self, p: PlayerId) -> (r: Result<(), JavaError>)
        ensures
            !valid(old(self)@, p) ==> r == Err::<(), JavaError>(JavaError::NullPointer) && final(self)@
                == old(self)@,
            valid(old(self)@, p) ==> ({
                let c = old(self)@.players[p.0 as int];
                &&& c.state == PlayerState::Closed ==> is_illegal_state(r) && final(self)@ == old(self)@
                &&& c.state != PlayerState::Closed && c.state != PlayerState::Started ==> r is Ok && final(self)@ == old(self)@
                &&& c.state == PlayerState::Started ==> r is Ok && final(self)@ == (MediaRuntimeView {
                    events: if c.has_listener {
                        old(self)@.events.push((p, PlayerEvent::Stopped))
                    } else {
                        old(self)@.events
                    },
                    ..updated(
                        old(self)@,
                        p,
                        PlayerCell { state: PlayerState::Prefetched, ..c },
                        HostAudioOp::Stop { player: p, source: c.source },
                    )
                })
            }),
    {
        let mut cell = self.cell(p)?;
        if cell.state == PlayerState::Closed {
            return Err(illegal_state("stop on CLOSED"));
        }
        if cell.state != PlayerState::Started {
            return Ok(());
        }
        cell.state = PlayerState::Prefetched;
        let source = cell.source.clone();
        let has_listener = cell.has_listener;
        self.store(p, cell);
        self.ops.push(HostAudioOp::Stop { player: p, source });
        if has_listener {
            self.events.push((p, PlayerEvent::Stopped));
        }
        Ok(())
    }

    /// `close()` — `→ CLOSED` (idempotent).
    pub fn close(&mut self, p: PlayerId) -> (r: Result<(), JavaError>)
        ensures
            !valid(old(self)@, p) ==> r == Err::<(), JavaError>(JavaError::NullPointer) && final(self)@
                == old(self)@,
            valid(old(self)@, p) ==> ({
                let c = old(self)@.players[p.0 as int];
                &&& r is Ok
                &&& final(self)@ == (MediaRuntimeView {
                    events: if c.has_listener {
                        old(self)@.events.push((p, PlayerEvent::Closed))
                    } else {
                        old(self)@.events
                    },
                    ..updated(
                        old(self)@,
                        p,
                        PlayerCell { state: PlayerState::Closed, ..c },
                        HostAudioOp::Close { player: p },
                    )
                })
            }),
    {
        let mut cell = self.cell(p)?;
        cell.state = PlayerState::Closed;
        let has_listener = cell.has_listener;
        self.store(p, cell);
        self.ops.push(HostAudioOp::Close { player: p });
        if has_listener {
            self.events.push((p, PlayerEvent::Closed));
        }
        Ok(())
    }

    /// `getControl(controlType)` — presence of the named `Control`. Only
    /// `"VolumeControl"` exists, and only where the profile lists it (every
    /// player has one without a profile); any other control is absent (Java
    /// `null`). A missing player is `NullPointerException`.
    pub fn get_control(&self, p: PlayerId, control_type: &str) -> (r: Result<bool, JavaError>)
        ensures
            !valid(self@, p) ==> r == Err::<bool, JavaError>(JavaError::NullPointer),
            valid(self@, p) ==> r == Ok::<bool, JavaError>(
                control_type@ == "VolumeControl"@ && match self@.capabilities {
                    Some(c) => lists_text(c.controls@, "VolumeControl"@),
                    None => true,
                },
            ),
    {
        let _ = self.cell(p)?;
        let profile_has_control = match &self.capabilities {
            Some(capabilities) => capabilities.has_control("VolumeControl"),
            None => true,
        };
        Ok(same_text(control_type, "VolumeControl") && profile_has_control)
    }

    /// `VolumeControl.setLevel(level)` — set the absolute volume (clamped to
    /// 0..=100 as MMAPI does) and return the level actually applied; emits a host
    /// op. The game gates this behind a non-null `getControl("VolumeControl")`.
    pub fn set_level(&mut self, p: PlayerId, level: i32) -> (r: Result<i32, JavaError>)
        ensures
            !valid(old(self)@, p) ==> r == Err::<i32, JavaError>(JavaError::NullPointer) && final(self)@
                == old(self)@,
            valid(old(self)@, p) ==> r == Ok::<i32, JavaError>(clamp_level(level)) && final(self)@ == updated(
                old(self)@,
                p,
                PlayerCell { volume_level: clamp_level(level), ..old(self)@.players[p.0 as int] },
                HostAudioOp::SetVolume { player: p, level: clamp_level(level) },
            ),
    {
        let applied = if level < 0 {
            0
        } else if level > 100 {
            100
        } else {
            level
        };
        let mut cell = self.cell(p)?;
        cell.volume_level = applied;
        self.store(p, cell);
        self.ops.push(HostAudioOp::SetVolume { player: p, level: applied });
        Ok(applied)
    }

    /// `VolumeControl.getLevel()`.
    pub fn get_level(&self, p: PlayerId) -> (r: Result<i32, JavaError>)
        ensures
            !valid(self@, p) ==> r == Err::<i32, JavaError>(JavaError::NullPointer),
            valid(self@, p) ==> r == Ok::<i32, JavaError>(self@.players[p.0 as int].volume_level),
    {
        let cell = self.cell(p)?;
        Ok(cell.volume_level)
    }

    pub fn set_mute(&mut self, p: PlayerId, muted: bool) -> (r: Result<(), JavaError>)
        ensures
            !valid(old(self)@, p) ==> r == Err::<(), JavaError>(JavaError::NullPointer) && final(self)@
                == old(self)@,
            valid(old(self)@, p) ==> r is Ok && final(self)@ == updated(
                old(self)@,
                p,
                PlayerCell { muted, ..old(self)@.players[p.0 as int] },
                HostAudioOp::SetMute { player: p, muted },
            ),
    {
        let mut cell = self.cell(p)?;
        cell.muted = muted;
        self.store(p, cell);
        self.ops.push(HostAudioOp::SetMute { player: p, muted });
        Ok(())
    }

    pub fn is_muted(&self, p: PlayerId) -> (r: Result<bool, JavaError>)
        ensures
            !valid(self@, p) ==> r == Err::<bool, JavaError>(JavaError::NullPointer),
            valid(self@, p) ==> r == Ok::<bool, JavaError>(self@.players[p.0 as int].muted),
    {
        let cell = self.cell(p)?;
        Ok(cell.muted)
    }

    /// `setMediaTime(us)`: a non-negative position on a player that is not
    /// closed; returns the position applied.
    pub fn set_media_time(&mut self, p: PlayerId, microseconds: i64) -> (r: Result<i64, JavaError>)
        ensures
            microseconds < 0 ==> (r matches Err(JavaError::Media(_))) && final(self)@ == old(self)@,
            microseconds >= 0 && !valid(old(self)@, p) ==> r == Err::<i64, JavaError>(JavaError::NullPointer)
                && final(self)@ == old(self)@,
            microseconds >= 0 && valid(old(self)@, p) ==> ({
                let c = old(self)@.players[p.0 as int];
                &&& c.state == PlayerState::Closed ==> is_illegal_state(r) && final(self)@ == old(self)@
                &&& c.state != PlayerState::Closed ==> r == Ok::<i64, JavaError>(microseconds) && final(self)@
                    == updated(
                    old(self)@,
                    p,
                    PlayerCell { media_time_us: microseconds, ..c },
                    HostAudioOp::SetMediaTime { player: p, microseconds },
                )
            }),
    {
        if microseconds < 0 {
            return Err(JavaError::Media(String::from_str("setMediaTime requires a non-negative value")));
        }
        let mut cell = self.cell(p)?;
        if cell.state == PlayerState::Closed {
            return Err(illegal_state("setMediaTime on CLOSED"));
        }
        cell.media_time_us = microseconds;
        self.store(p, cell);
        self.ops.push(HostAudioOp::SetMediaTime { player: p, microseconds });
        Ok(microseconds)
    }

    pub fn media_time(&self, p: PlayerId) -> (r: Result<i64, JavaError>)
        ensures
            !valid(self@, p) ==> r == Err::<i64, JavaError>(JavaError::NullPointer),
            valid(self@, p) ==> r == Ok::<i64, JavaError>(self@.players[p.0 as int].media_time_us),
    {
        let cell = self.cell(p)?;
        Ok(cell.media_time_us)
    }

    /// Host-supplied decoded duration. `getDuration()` returns MMAPI
    /// `TIME_UNKNOWN` (-1) until the adapter has prepared the media.
    pub fn set_duration(&mut self, p: PlayerId, microseconds: i64) -> (r: Result<(), JavaError>)
        ensures
            microseconds < 0 ==> r == Err::<(), JavaError>(JavaError::IllegalArgument("negative media duration"))
                && final(self)@ == old(self)@,
            microseconds >= 0 && !valid(old(self)@, p) ==> r == Err::<(), JavaError>(JavaError::NullPointer)
                && final(self)@ == old(self)@,
            microseconds >= 0 && valid(old(self)@, p) ==> r is Ok && final(self)@ == replaced(
                old(self)@,
                p,
                PlayerCell { duration_us: Some(microseconds), ..old(self)@.players[p.0 as int] },
            ),
    {
        if microseconds < 0 {
            return Err(JavaError::IllegalArgument("negative media duration"));
        }
        let mut cell = self.cell(p)?;
        cell.duration_us = Some(microseconds);
        self.store(p, cell);
        Ok(())
    }

    /// `getDuration()`: the decoded duration, or `-1` while unknown.
    pub fn duration(&self, p: PlayerId) -> (r: Result<i64, JavaError>)
        ensures
            !valid(self@, p) ==> r == Err::<i64, JavaError>(JavaError::NullPointer),
            valid(self@, p) ==> r == Ok::<i64, JavaError>(
                match self@.players[p.0 as int].duration_us {
                    Some(d) => d,
                    None => -1i64,
                },
            ),
    {
        let cell = self.cell(p)?;
        match cell.duration_us {
            Some(d) => Ok(d),
            None => Ok(-1),
        }
    }

    /// Host notification after finite playback reaches the end.
    pub fn notify_end_of_media(&mut self, p: PlayerId) -> (r: Result<(), JavaError>)
        ensures
            !valid(old(self)@, p) ==> r == Err::<(), JavaError>(JavaError::NullPointer) && final(self)@
                == old(self)@,
            valid(old(self)@, p) ==> ({
                let c = old(self)@.players[p.0 as int];
                &&& c.state != PlayerState::Started ==> (r matches Err(JavaError::Media(_))) && final(self)@ == old(self)@
                &&& c.state == PlayerState::Started ==> r is Ok && final(self)@ == (MediaRuntimeView {
                    events: if c.has_listener {
                        old(self)@.events.push((p, PlayerEvent::EndOfMedia))
                    } else {
                        old(self)@.events
                    },
                    ..replaced(old(self)@, p, PlayerCell { state: PlayerState::Prefetched, ..c })
                })
            }),
    {
        let mut cell = self.cell(p)?;
        if cell.state != PlayerState::Started {
            return Err(JavaError::Media(String::from_str("endOfMedia when not STARTED")));
        }
        cell.state = PlayerState::Prefetched;
        let has_listener = cell.has_listener;
        self.store(p, cell);
        if has_listener {
            self.events.push((p, PlayerEvent::EndOfMedia));
        }
        Ok(())
    }
}

} // verus!
