//! The session store: a registry of in-flight game sessions, each
//! pairing a grid with the path of its uploaded decision program.
//! Identifiers are allocated monotonically and never reused; removal
//! is idempotent and hands the backing artifact path out exactly once.

use crate::grid::grid_height;
use crate::grid::grid_in_bounds;
use crate::grid::grid_rect;
use crate::grid::no_cell_revealed;
use crate::grid::reveal_post;
use crate::grid::same_dims;
use crate::grid::MinesweeperCellType;
use crate::grid::MinesweeperGrid;
use crate::grid::Outcome;
use crate::text::decimal_digits;
use crate::text::digits_to_usize;
use crate::text::digits_val;
use crate::text::scan_digits;
use crate::text::skip_digits;
use crate::text::str_eq;
use crate::text::u64_to_string;
use std::collections::HashMap;
use vstd::prelude::*;

verus! {

broadcast use vstd::std_specs::hash::group_hash_axioms;

/// One in-flight game: its grid and the filesystem path of the
/// uploaded decision program.
#[derive(Debug)]
pub struct Session {
    pub grid: MinesweeperGrid,
    pub artifact_path: String,
}

/// A session's grid is rectangular and small enough for cell counts to
/// fit the machine word.
pub open spec fn session_wf(s: Session) -> bool {
    &&& grid_rect(s.grid@)
    &&& s.grid@.len() * grid_height(s.grid@) <= usize::MAX
}

/// The registry of sessions. The store hands out identifiers from a
/// monotonic counter, so an identifier is never reused within the
/// store's lifetime.
///
/// This is the sequential model of the registry: creation, lookup,
/// removal and the only-a-loss-removes rule are verified here. A
/// concurrent caller that needs per-session locking keeps sessions
/// under its own two-level locks and mirrors these decisions; the
/// store itself is exercised directly by the tests.
pub struct SessionStore {
    next_id: usize,
    sessions: HashMap<usize, Session>,
}

/// How a move request against the store ended.
#[derive(Debug)]
pub enum MoveApplication {
    /// No session has this identifier.
    NotFound,
    /// The coordinate was rejected (out of bounds or a no-op); the
    /// session is untouched and keeps running.
    Rejected(Outcome),
    /// The move revealed this many cells; the session keeps running.
    Applied(usize),
    /// A bomb was hit on a non-first move: the session has been
    /// removed from the store and its final state is handed back so
    /// the caller can render it and delete the artifact exactly once.
    Ended(Session),
}

impl SessionStore {
    pub closed spec fn sessions_map(self) -> Map<usize, Session> {
        self.sessions@
    }

    pub closed spec fn next(self) -> int {
        self.next_id as int
    }

    pub open spec fn grid_of(self, id: usize) -> Seq<Seq<MinesweeperCellType>> {
        self.sessions_map()[id].grid@
    }

    /// Identifiers already handed out are below the counter, and every
    /// stored session is well formed.
    pub open spec fn wf(self) -> bool {
        forall|id: usize| #[trigger]
            self.sessions_map().contains_key(id) ==> id < self.next() && session_wf(
                self.sessions_map()[id],
            )
    }

    /// An empty store.
    pub fn new() -> (s: SessionStore)
        ensures
            s.wf(),
            s.sessions_map() == Map::<usize, Session>::empty(),
            s.next() == 0,
    {
        SessionStore { next_id: 0, sessions: HashMap::new() }
    }

    /// Register a session under a fresh identifier.
    pub fn create(&mut self, session: Session) -> (id: usize)
        requires
            old(self).wf(),
            old(self).next() < usize::MAX as int,
            session_wf(session),
        ensures
            final(self).wf(),
            id as int == old(self).next(),
            !old(self).sessions_map().contains_key(id),
            final(self).sessions_map() == old(self).sessions_map().insert(id, session),
            final(self).next() == old(self).next() + 1,
    {
        let id = self.next_id;
        self.next_id = self.next_id + 1;
        self.sessions.insert(id, session);
        proof {
            assert forall|k: usize| #[trigger]
                self.sessions_map().contains_key(k) implies k < self.next() && session_wf(
                self.sessions_map()[k],
            ) by {
                if k != id {
                    assert(old(self).sessions_map().contains_key(k));
                }
            }
        }
        id
    }

    /// Whether a session with this identifier is registered.
    pub fn contains(&self, id: usize) -> (r: bool)
        ensures
            r == self.sessions_map().contains_key(id),
    {
        self.sessions.contains_key(&id)
    }

    /// Remove a session, handing back its artifact path so the caller
    /// can delete the backing file. Removing an absent identifier is a
    /// no-op, and the path of a session is handed out at most once, so
    /// the artifact cannot be deleted twice.
    pub fn remove(&mut self, id: usize) -> (r: Option<String>)
        requires
            old(self).wf(),
        ensures
            final(self).wf(),
            final(self).next() == old(self).next(),
            final(self).sessions_map() == old(self).sessions_map().remove(id),
            match r {
                Some(p) => old(self).sessions_map().contains_key(id) && p == old(
                    self,
                ).sessions_map()[id].artifact_path,
                None => !old(self).sessions_map().contains_key(id),
            },
    {
        let r = match self.sessions.remove(&id) {
            Some(s) => Some(s.artifact_path),
            None => None,
        };
        proof {
            assert forall|k: usize| #[trigger]
                self.sessions_map().contains_key(k) implies k < self.next() && session_wf(
                self.sessions_map()[k],
            ) by {
                assert(old(self).sessions_map().contains_key(k));
            }
        }
        r
    }

    /// Apply one move to the session `id`: look it up, play the
    /// coordinate on its grid, and remove the session when the game is
    /// lost. A failed or rejected move never removes the session and
    /// leaves its grid as it was.
    pub fn apply_move(&mut self, id: usize, xpos: usize, ypos: usize) -> (r: MoveApplication)
        requires
            old(self).wf(),
        ensures
            final(self).wf(),
            final(self).next() == old(self).next(),
            forall|k: usize|
                k != id ==> (#[trigger] final(self).sessions_map().contains_key(k) == old(
                    self,
                ).sessions_map().contains_key(k)) && (old(self).sessions_map().contains_key(k)
                    ==> final(self).sessions_map()[k] == old(self).sessions_map()[k]),
            (r is NotFound <==> !old(self).sessions_map().contains_key(id)),
            r is NotFound ==> final(self).sessions_map() == old(self).sessions_map(),
            (r is Ended <==> (old(self).sessions_map().contains_key(id) && grid_in_bounds(
                old(self).grid_of(id),
                xpos as int,
                ypos as int,
            ) && old(self).grid_of(id)[xpos as int][ypos as int] is Bomb && !no_cell_revealed(
                old(self).grid_of(id),
            ))),
            r matches MoveApplication::Ended(s) ==> {
                &&& final(self).sessions_map() == old(self).sessions_map().remove(id)
                &&& s.artifact_path == old(self).sessions_map()[id].artifact_path
                &&& s.grid@ == old(self).grid_of(id).update(
                    xpos as int,
                    old(self).grid_of(id)[xpos as int].update(
                        ypos as int,
                        MinesweeperCellType::Exploded,
                    ),
                )
            },
            (r is Rejected <==> (old(self).sessions_map().contains_key(id) && (!grid_in_bounds(
                old(self).grid_of(id),
                xpos as int,
                ypos as int,
            ) || old(self).grid_of(id)[xpos as int][ypos as int] is Revealed || old(self).grid_of(
                id,
            )[xpos as int][ypos as int] is Exploded))),
            r matches MoveApplication::Rejected(o) ==> {
                &&& final(self).sessions_map().contains_key(id)
                &&& final(self).grid_of(id) == old(self).grid_of(id)
                &&& final(self).sessions_map()[id].artifact_path == old(
                    self,
                ).sessions_map()[id].artifact_path
                &&& (o is Invalid <==> !grid_in_bounds(
                    old(self).grid_of(id),
                    xpos as int,
                    ypos as int,
                ))
                &&& !(o is Lost)
            },
            (r is Applied <==> (old(self).sessions_map().contains_key(id) && grid_in_bounds(
                old(self).grid_of(id),
                xpos as int,
                ypos as int,
            ) && (old(self).grid_of(id)[xpos as int][ypos as int] is Hidden || (old(self).grid_of(
                id,
            )[xpos as int][ypos as int] is Bomb && no_cell_revealed(old(self).grid_of(id)))))),
            r matches MoveApplication::Applied(n) ==> {
                &&& final(self).sessions_map().contains_key(id)
                &&& final(self).sessions_map()[id].artifact_path == old(
                    self,
                ).sessions_map()[id].artifact_path
                &&& (old(self).grid_of(id)[xpos as int][ypos as int] is Hidden ==> reveal_post(
                    old(self).grid_of(id),
                    final(self).grid_of(id),
                    xpos as int,
                    ypos as int,
                    n as int,
                ))
                &&& (old(self).grid_of(id)[xpos as int][ypos as int] is Bomb ==> reveal_post(
                    old(self).grid_of(id).update(
                        xpos as int,
                        old(self).grid_of(id)[xpos as int].update(
                            ypos as int,
                            MinesweeperCellType::Hidden,
                        ),
                    ),
                    final(self).grid_of(id),
                    xpos as int,
                    ypos as int,
                    n as int,
                ))
            },
    {
        let ghost m0 = self.sessions@;
        match self.sessions.remove(&id) {
            None => {
                proof {
                    assert(self.sessions@ =~= m0);
                }
                MoveApplication::NotFound
            },
            Some(mut session) => {
                proof {
                    assert(m0.contains_key(id) && m0[id] == session);
                    assert(session_wf(session));
                }
                let ghost g0 = session.grid@;
                match session.grid.discover(xpos, ypos) {
                    Ok(n) => {
                        proof {
                            assert(same_dims(g0, session.grid@));
                            assert(grid_height(session.grid@) == grid_height(g0));
                            assert(session_wf(session));
                        }
                        self.sessions.insert(id, session);
                        MoveApplication::Applied(n)
                    },
                    Err(Outcome::Lost) => MoveApplication::Ended(session),
                    Err(o) => {
                        self.sessions.insert(id, session);
                        proof {
                            assert(self.sessions@[id].grid@ == g0);
                        }
                        MoveApplication::Rejected(o)
                    },
                }
            },
        }
    }
}

/// Removing the same identifier twice is the same as removing it
/// once, and after a removal the identifier is gone, so `remove` can
/// never hand out a second artifact path for one session: the backing
/// file cannot be deleted twice.
pub proof fn lemma_remove_idempotent(m: Map<usize, Session>, id: usize)
    ensures
        m.remove(id).remove(id) == m.remove(id),
        !m.remove(id).contains_key(id),
{
    assert(m.remove(id).remove(id) =~= m.remove(id));
}

/// Why a message's first line yields no game identifier.
#[derive(Debug, Copy, Clone, PartialEq, Eq, Structural)]
pub enum GameIdParseError {
    /// The message is empty.
    NoContent,
    /// The first line is shorter than the heading that precedes the
    /// identifier.
    TooShort,
    /// What follows the heading is not a run of digits.
    NotANumber,
    /// The identifier does not fit the machine's address range.
    Overflow,
}

/// The index of the first newline at or after `i`, or the length.
pub open spec fn line_end(s: Seq<char>, i: int) -> int
    decreases s.len() - i,
{
    if 0 <= i < s.len() && s[i] != '\n' {
        line_end(s, i + 1)
    } else {
        i
    }
}

/// The number of characters of the heading (`# Minesweeper `) that a
/// game message puts before the identifier on its first line.
pub open spec fn heading_len() -> int {
    14
}

/// The game identifier that a message's first line carries after the
/// heading, or why there is none.
pub open spec fn game_id_spec(s: Seq<char>) -> Result<int, GameIdParseError> {
    let e = line_end(s, 0);
    if s.len() == 0 {
        Err(GameIdParseError::NoContent)
    } else if e < heading_len() {
        Err(GameIdParseError::TooShort)
    } else if e == heading_len() || skip_digits(s, heading_len()) != e {
        Err(GameIdParseError::NotANumber)
    } else if digits_val(s, heading_len(), e) > usize::MAX {
        Err(GameIdParseError::Overflow)
    } else {
        Ok(digits_val(s, heading_len(), e))
    }
}

/// Read the game identifier off a message's first line: everything
/// after the fixed-width heading, parsed as a decimal number.
pub fn parse_first_line_game_id(content: &str) -> (r: Result<usize, GameIdParseError>)
    ensures
        (match game_id_spec(content@) {
            Ok(v) => r matches Ok(u) && u as int == v,
            Err(e) => r matches Err(e2) && e2 == e,
        }),
{
    let len = content.unicode_len();
    let mut e: usize = 0;
    while e < len && content.get_char(e) != '\n'
        invariant
            e <= len,
            len == content@.len(),
            line_end(content@, 0) == line_end(content@, e as int),
        decreases len - e,
    {
        e = e + 1;
    }
    if len == 0 {
        return Err(GameIdParseError::NoContent);
    }
    if e < 14 {
        return Err(GameIdParseError::TooShort);
    }
    let d_end = scan_digits(content, 14);
    if e == 14 || d_end != e {
        return Err(GameIdParseError::NotANumber);
    }
    match digits_to_usize(content, 14, e) {
        Some(v) => Ok(v),
        None => Err(GameIdParseError::Overflow),
    }
}

/// The grid dimensions and bomb probability of a new session, after
/// the requested values are clamped to the sane ranges. The
/// probability is carried in thousandths.
pub struct MinesweeperSettings {
    pub width: usize,
    pub height: usize,
    pub bomb_per_mille: u64,
}

pub open spec fn clamp_spec(v: int, lo: int, hi: int) -> int {
    if v < lo {
        lo
    } else if v > hi {
        hi
    } else {
        v
    }
}

fn clamp_i64(v: i64, lo: i64, hi: i64) -> (r: i64)
    requires
        lo <= hi,
    ensures
        r as int == clamp_spec(v as int, lo as int, hi as int),
        lo <= r <= hi,
{
    if v < lo {
        lo
    } else if v > hi {
        hi
    } else {
        v
    }
}

/// Resolve the requested settings: dimensions are clamped to [2, 100]
/// (default 8), the bomb probability to [100, 900] thousandths
/// (default 200). The resulting grid always has few enough cells for
/// every cell count to fit the machine word.
pub fn resolve_settings(
    width: Option<i64>,
    height: Option<i64>,
    probability_per_mille: Option<i64>,
) -> (s: MinesweeperSettings)
    ensures
        s.width as int == (match width {
            Some(w) => clamp_spec(w as int, 2, 100),
            None => 8,
        }),
        s.height as int == (match height {
            Some(h) => clamp_spec(h as int, 2, 100),
            None => 8,
        }),
        s.bomb_per_mille as int == (match probability_per_mille {
            Some(p) => clamp_spec(p as int, 100, 900),
            None => 200,
        }),
        2 <= s.width <= 100,
        2 <= s.height <= 100,
        100 <= s.bomb_per_mille <= 900,
        s.width * s.height <= usize::MAX,
{
    let w: usize = match width {
        Some(v) => clamp_i64(v, 2, 100) as usize,
        None => 8,
    };
    let h: usize = match height {
        Some(v) => clamp_i64(v, 2, 100) as usize,
        None => 8,
    };
    let p: u64 = match probability_per_mille {
        Some(v) => clamp_i64(v, 100, 900) as u64,
        None => 200,
    };
    proof {
        assert((w as int) * (h as int) <= 10000) by (nonlinear_arith)
            requires
                2 <= w as int <= 100,
                2 <= h as int <= 100,
        ;
    }
    MinesweeperSettings { width: w, height: h, bomb_per_mille: p }
}

/// Whether an uploaded artifact is small enough to accept
/// (100 megabytes).
pub fn attachment_size_ok(size: u64) -> (r: bool)
    ensures
        r == (size <= 100000000),
{
    size <= 100000000
}

/// The file extension for an accepted upload content type: WebAssembly
/// binaries and Python sources; anything else is refused.
pub fn extension_for_content_type(content_type: &str) -> (r: Option<&'static str>)
    ensures
        (match r {
            Some(e) => (content_type@ == "application/wasm"@ && e@ == "wasm"@) || ((content_type@
                == "text/x-python"@ || content_type@ == "text/x-python; charset=utf-8"@) && e@
                == "py"@),
            None => content_type@ != "application/wasm"@ && content_type@ != "text/x-python"@
                && content_type@ != "text/x-python; charset=utf-8"@,
        }),
{
    if str_eq(content_type, "application/wasm") {
        Some("wasm")
    } else if str_eq(content_type, "text/x-python") {
        Some("py")
    } else if str_eq(content_type, "text/x-python; charset=utf-8") {
        Some("py")
    } else {
        None
    }
}

/// Where a session's uploaded artifact is stored: the identifier with
/// the kind's extension, under the temporary directory.
pub open spec fn artifact_path_spec(id: nat, ext: Seq<char>) -> Seq<char> {
    "./tmp/"@ + decimal_digits(id) + "."@ + ext
}

/// Build the artifact path for a session identifier.
pub fn artifact_path(game_id: usize, extension: &str) -> (p: String)
    ensures
        p@ == artifact_path_spec(game_id as nat, extension@),
{
    let mut p = String::from_str("./tmp/");
    let digits = u64_to_string(game_id as u64);
    p.append(digits.as_str());
    p.append(".");
    p.append(extension);
    proof {
        reveal_strlit(".");
        assert((game_id as u64) as nat == game_id as nat);
    }
    p
}

} // verus!
