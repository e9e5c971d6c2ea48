//! The immutable records a snapshot is made of.
//!
//! A snapshot is a fully resolved copy of the simulation's state at one
//! tick: scores, agents, flags and capture points, grouped by team and
//! sorted by their stable numeric identifier, so that two snapshots of
//! equivalent state are byte-for-byte the same on the wire.
//!
//! Positions and speeds are fixed-point integers counting thousandths of a
//! world unit; names are byte strings of printable ASCII without `"` or
//! `\`, so the wire format needs no escaping.
//!
//! Each record type has a mathematical view (`@`) in which the name is a
//! byte sequence; the codec's contracts speak of those views.

use vstd::prelude::*;

use crate::team::TeamId;

verus! {

/// Largest magnitude (in thousandths) a coordinate or speed may have.
pub const COORD_LIMIT: i64 = 2_000_000_000;

/// A coordinate or speed stays inside the world's fixed-point range.
pub open spec fn coord_wf(v: i64) -> bool {
    -COORD_LIMIT <= v <= COORD_LIMIT
}

/// A planar point or velocity in fixed-point thousandths.
#[derive(Debug, Clone, Copy, PartialEq, Eq, Structural)]
pub struct Vec2Fx {
    pub x: i64,
    pub y: i64,
}

/// Both components stay inside the world's fixed-point range.
pub open spec fn vec2_wf(v: Vec2Fx) -> bool {
    coord_wf(v.x) && coord_wf(v.y)
}

/// Names travel unescaped: printable ASCII without quote or backslash.
pub open spec fn name_wf(s: Seq<u8>) -> bool {
    forall|i: int|
        0 <= i < s.len() ==> (0x20 <= #[trigger] s[i] <= 0x7e && s[i] != 0x22 && s[i] != 0x5c)
}

/// Where a flag currently is.
#[derive(Debug, Clone, Copy, PartialEq, Eq, Structural)]
pub enum FlagStatus {
    Dropped,
    PickedUp,
    Captured,
}

/// One agent, as a worker sees it.
#[derive(Debug, Clone, PartialEq, Eq)]
pub struct AgentState {
    pub name: Vec<u8>,
    pub id: u32,
    pub team: TeamId,
    pub position: Vec2Fx,
    pub max_speed: i64,
    pub has_flag: bool,
}

/// One flag, as a worker sees it.
#[derive(Debug, Clone, PartialEq, Eq)]
pub struct FlagState {
    pub id: u32,
    pub name: Vec<u8>,
    pub team: TeamId,
    pub position: Vec2Fx,
    pub status: FlagStatus,
}

/// One capture point, as a worker sees it.
#[derive(Debug, Clone, PartialEq, Eq)]
pub struct CapturePointState {
    pub name: Vec<u8>,
    pub id: u32,
    pub team: TeamId,
    pub position: Vec2Fx,
    pub has_flag: bool,
}

/// A snapshot of the whole game at one tick.
#[derive(Debug, Clone, PartialEq, Eq)]
pub struct GameState {
    pub red_score: u32,
    pub blue_score: u32,
    pub red_team: Vec<AgentState>,
    pub blue_team: Vec<AgentState>,
    pub red_flags: Vec<FlagState>,
    pub blue_flags: Vec<FlagState>,
    pub num_flags_per_team: u32,
    pub red_capture_points: Vec<CapturePointState>,
    pub blue_capture_points: Vec<CapturePointState>,
}

/// Mathematical value of an agent record.
pub ghost struct AgentStateV {
    pub name: Seq<u8>,
    pub id: u32,
    pub team: TeamId,
    pub position: Vec2Fx,
    pub max_speed: i64,
    pub has_flag: bool,
}

/// Mathematical value of a flag record.
pub ghost struct FlagStateV {
    pub id: u32,
    pub name: Seq<u8>,
    pub team: TeamId,
    pub position: Vec2Fx,
    pub status: FlagStatus,
}

/// Mathematical value of a capture point record.
pub ghost struct CapturePointStateV {
    pub name: Seq<u8>,
    pub id: u32,
    pub team: TeamId,
    pub position: Vec2Fx,
    pub has_flag: bool,
}

/// Mathematical value of a whole snapshot.
pub ghost struct GameStateV {
    pub red_score: u32,
    pub blue_score: u32,
    pub red_team: Seq<AgentStateV>,
    pub blue_team: Seq<AgentStateV>,
    pub red_flags: Seq<FlagStateV>,
    pub blue_flags: Seq<FlagStateV>,
    pub num_flags_per_team: u32,
    pub red_capture_points: Seq<CapturePointStateV>,
    pub blue_capture_points: Seq<CapturePointStateV>,
}

impl View for AgentState {
    type V = AgentStateV;

    open spec fn view(&self) -> AgentStateV {
        AgentStateV {
            name: self.name@,
            id: self.id,
            team: self.team,
            position: self.position,
            max_speed: self.max_speed,
            has_flag: self.has_flag,
        }
    }
}

impl View for FlagState {
    type V = FlagStateV;

    open spec fn view(&self) -> FlagStateV {
        FlagStateV {
            id: self.id,
            name: self.name@,
            team: self.team,
            position: self.position,
            status: self.status,
        }
    }
}

impl View for CapturePointState {
    type V = CapturePointStateV;

    open spec fn view(&self) -> CapturePointStateV {
        CapturePointStateV {
            name: self.name@,
            id: self.id,
            team: self.team,
            position: self.position,
            has_flag: self.has_flag,
        }
    }
}

/// The views of every agent in a list, in order.
pub open spec fn agent_views(s: Seq<AgentState>) -> Seq<AgentStateV> {
    s.map_values(|a: AgentState| a@)
}

/// The views of every flag in a list, in order.
pub open spec fn flag_views(s: Seq<FlagState>) -> Seq<FlagStateV> {
    s.map_values(|f: FlagState| f@)
}

/// The views of every capture point in a list, in order.
pub open spec fn capture_point_views(s: Seq<CapturePointState>) -> Seq<CapturePointStateV> {
    s.map_values(|c: CapturePointState| c@)
}

impl View for GameState {
    type V = GameStateV;

    open spec fn view(&self) -> GameStateV {
        GameStateV {
            red_score: self.red_score,
            blue_score: self.blue_score,
            red_team: agent_views(self.red_team@),
            blue_team: agent_views(self.blue_team@),
            red_flags: flag_views(self.red_flags@),
            blue_flags: flag_views(self.blue_flags@),
            num_flags_per_team: self.num_flags_per_team,
            red_capture_points: capture_point_views(self.red_capture_points@),
            blue_capture_points: capture_point_views(self.blue_capture_points@),
        }
    }
}

pub open spec fn agent_wf(a: AgentStateV) -> bool {
    &&& name_wf(a.name)
    &&& vec2_wf(a.position)
    &&& 0 <= a.max_speed <= COORD_LIMIT
}

pub open spec fn flag_wf(f: FlagStateV) -> bool {
    &&& name_wf(f.name)
    &&& vec2_wf(f.position)
}

pub open spec fn capture_point_wf(c: CapturePointStateV) -> bool {
    &&& name_wf(c.name)
    &&& vec2_wf(c.position)
}

pub open spec fn agents_wf(s: Seq<AgentStateV>) -> bool {
    forall|i: int| 0 <= i < s.len() ==> agent_wf(#[trigger] s[i])
}

pub open spec fn flags_wf(s: Seq<FlagStateV>) -> bool {
    forall|i: int| 0 <= i < s.len() ==> flag_wf(#[trigger] s[i])
}

pub open spec fn capture_points_wf(s: Seq<CapturePointStateV>) -> bool {
    forall|i: int| 0 <= i < s.len() ==> capture_point_wf(#[trigger] s[i])
}

/// Every record of the snapshot is within range and cleanly named.
pub open spec fn game_state_wf(g: GameStateV) -> bool {
    &&& agents_wf(g.red_team)
    &&& agents_wf(g.blue_team)
    &&& flags_wf(g.red_flags)
    &&& flags_wf(g.blue_flags)
    &&& capture_points_wf(g.red_capture_points)
    &&& capture_points_wf(g.blue_capture_points)
}

/// Agents in ascending id order.
pub open spec fn agents_sorted(s: Seq<AgentState>) -> bool {
    forall|i: int, j: int| 0 <= i < j < s.len() ==> #[trigger] s[i].id <= #[trigger] s[j].id
}

/// Flags in ascending id order.
pub open spec fn flags_sorted(s: Seq<FlagState>) -> bool {
    forall|i: int, j: int| 0 <= i < j < s.len() ==> #[trigger] s[i].id <= #[trigger] s[j].id
}

/// Capture points in ascending id order.
pub open spec fn capture_points_sorted(s: Seq<CapturePointState>) -> bool {
    forall|i: int, j: int| 0 <= i < j < s.len() ==> #[trigger] s[i].id <= #[trigger] s[j].id
}

impl GameState {
    /// The score of one side.
    pub fn get_team_score(&self, team: TeamId) -> (r: u32)
        ensures
            r == (if team == TeamId::Red {
                self.red_score
            } else {
                self.blue_score
            }),
    {
        match team {
            TeamId::Red => self.red_score,
            TeamId::Blue => self.blue_score,
        }
    }

    /// The agents of one side.
    pub fn get_team_agents(&self, team: TeamId) -> (r: &Vec<AgentState>)
        ensures
            r@ == (if team == TeamId::Red {
                self.red_team@
            } else {
                self.blue_team@
            }),
    {
        match team {
            TeamId::Red => &self.red_team,
            TeamId::Blue => &self.blue_team,
        }
    }

    /// The flags of one side.
    pub fn get_team_flags(&self, team: TeamId) -> (r: &Vec<FlagState>)
        ensures
            r@ == (if team == TeamId::Red {
                self.red_flags@
            } else {
                self.blue_flags@
            }),
    {
        match team {
            TeamId::Red => &self.red_flags,
            TeamId::Blue => &self.blue_flags,
        }
    }

    /// The capture points of one side.
    pub fn get_team_capture_points(&self, team: TeamId) -> (r: &Vec<CapturePointState>)
        ensures
            r@ == (if team == TeamId::Red {
                self.red_capture_points@
            } else {
                self.blue_capture_points@
            }),
    {
        match team {
            TeamId::Red => &self.red_capture_points,
            TeamId::Blue => &self.blue_capture_points,
        }
    }
}

/// A byte-for-byte copy of a name.
fn clone_bytes(v: &Vec<u8>) -> (r: Vec<u8>)
    ensures
        r@ == v@,
{
    let mut out: Vec<u8> = Vec::new();
    let mut i: usize = 0;
    while i < v.len()
        invariant
            0 <= i <= v@.len(),
            out@ == v@.take(i as int),
        decreases v@.len() - i,
    {
        out.push(v[i]);
        proof {
            assert(v@.take(i as int + 1) =~= v@.take(i as int).push(v@[i as int]));
        }
        i += 1;
    }
    proof {
        assert(v@.take(v@.len() as int) =~= v@);
    }
    out
}

/// A field-for-field copy of one agent record.
pub fn clone_agent(a: &AgentState) -> (r: AgentState)
    ensures
        r@ == a@,
{
    AgentState {
        name: clone_bytes(&a.name),
        id: a.id,
        team: a.team,
        position: a.position,
        max_speed: a.max_speed,
        has_flag: a.has_flag,
    }
}

/// A field-for-field copy of one flag record.
pub fn clone_flag(f: &FlagState) -> (r: FlagState)
    ensures
        r@ == f@,
{
    FlagState {
        id: f.id,
        name: clone_bytes(&f.name),
        team: f.team,
        position: f.position,
        status: f.status,
    }
}

/// A field-for-field copy of one capture point record.
pub fn clone_capture_point(c: &CapturePointState) -> (r: CapturePointState)
    ensures
        r@ == c@,
{
    CapturePointState {
        name: clone_bytes(&c.name),
        id: c.id,
        team: c.team,
        position: c.position,
        has_flag: c.has_flag,
    }
}

/// A copy of an agent list whose view is unchanged.
fn clone_agents(v: &Vec<AgentState>) -> (r: Vec<AgentState>)
    ensures
        agent_views(r@) == agent_views(v@),
{
    let mut out: Vec<AgentState> = Vec::new();
    let mut i: usize = 0;
    while i < v.len()
        invariant
            0 <= i <= v@.len(),
            agent_views(out@) == agent_views(v@.take(i as int)),
        decreases v@.len() - i,
    {
        out.push(clone_agent(&v[i]));
        proof {
            assert(agent_views(out@) =~= agent_views(v@.take(i as int)).push(v@[i as int]@));
            assert(agent_views(v@.take(i as int + 1)) =~= agent_views(v@.take(i as int)).push(
                v@[i as int]@,
            ));
        }
        i += 1;
    }
    proof {
        assert(v@.take(v@.len() as int) =~= v@);
    }
    out
}

/// A copy of a flag list whose view is unchanged.
fn clone_flags(v: &Vec<FlagState>) -> (r: Vec<FlagState>)
    ensures
        flag_views(r@) == flag_views(v@),
{
    let mut out: Vec<FlagState> = Vec::new();
    let mut i: usize = 0;
    while i < v.len()
        invariant
            0 <= i <= v@.len(),
            flag_views(out@) == flag_views(v@.take(i as int)),
        decreases v@.len() - i,
    {
        out.push(clone_flag(&v[i]));
        proof {
            assert(flag_views(out@) =~= flag_views(v@.take(i as int)).push(v@[i as int]@));
            assert(flag_views(v@.take(i as int + 1)) =~= flag_views(v@.take(i as int)).push(
                v@[i as int]@,
            ));
        }
        i += 1;
    }
    proof {
        assert(v@.take(v@.len() as int) =~= v@);
    }
    out
}

/// A copy of a capture point list whose view is unchanged.
fn clone_capture_points(v: &Vec<CapturePointState>) -> (r: Vec<CapturePointState>)
    ensures
        capture_point_views(r@) == capture_point_views(v@),
{
    let mut out: Vec<CapturePointState> = Vec::new();
    let mut i: usize = 0;
    while i < v.len()
        invariant
            0 <= i <= v@.len(),
            capture_point_views(out@) == capture_point_views(v@.take(i as int)),
        decreases v@.len() - i,
    {
        out.push(clone_capture_point(&v[i]));
        proof {
            assert(capture_point_views(out@) =~= capture_point_views(v@.take(i as int)).push(
                v@[i as int]@,
            ));
            assert(capture_point_views(v@.take(i as int + 1)) =~= capture_point_views(
                v@.take(i as int),
            ).push(v@[i as int]@));
        }
        i += 1;
    }
    proof {
        assert(v@.take(v@.len() as int) =~= v@);
    }
    out
}

impl GameState {
    /// A copy of the snapshot with the same mathematical value, so one
    /// tick can hand the same state to several workers.
    pub fn duplicate(&self) -> (r: GameState)
        ensures
            r@ == self@,
    {
        GameState {
            red_score: self.red_score,
            blue_score: self.blue_score,
            red_team: clone_agents(&self.red_team),
            blue_team: clone_agents(&self.blue_team),
            red_flags: clone_flags(&self.red_flags),
            blue_flags: clone_flags(&self.blue_flags),
            num_flags_per_team: self.num_flags_per_team,
            red_capture_points: clone_capture_points(&self.red_capture_points),
            blue_capture_points: clone_capture_points(&self.blue_capture_points),
        }
    }
}


/// Whether a name can travel unescaped on the wire.
fn name_in_range(name: &Vec<u8>) -> (r: bool)
    ensures
        r == name_wf(name@),
{
    let mut i: usize = 0;
    while i < name.len()
        invariant
            0 <= i <= name@.len(),
            forall|t: int|
                0 <= t < i ==> (0x20 <= #[trigger] name@[t] <= 0x7e && name@[t] != 0x22
                    && name@[t] != 0x5c),
        decreases name@.len() - i,
    {
        let b = name[i];
        if !(0x20 <= b && b <= 0x7e && b != 0x22 && b != 0x5c) {
            return false;
        }
        i += 1;
    }
    true
}

/// Whether a coordinate pair stays within the fixed-point range.
fn vec2_in_range(v: Vec2Fx) -> (r: bool)
    ensures
        r == vec2_wf(v),
{
    -COORD_LIMIT <= v.x && v.x <= COORD_LIMIT && -COORD_LIMIT <= v.y && v.y <= COORD_LIMIT
}

/// Whether one agent record is within range and cleanly named.
fn agent_in_range(a: &AgentState) -> (r: bool)
    ensures
        r == agent_wf(a@),
{
    name_in_range(&a.name) && vec2_in_range(a.position) && 0 <= a.max_speed && a.max_speed
        <= COORD_LIMIT
}

/// Whether one flag record is within range and cleanly named.
fn flag_in_range(f: &FlagState) -> (r: bool)
    ensures
        r == flag_wf(f@),
{
    name_in_range(&f.name) && vec2_in_range(f.position)
}

/// Whether one capture point record is within range and cleanly named.
fn capture_point_in_range(c: &CapturePointState) -> (r: bool)
    ensures
        r == capture_point_wf(c@),
{
    name_in_range(&c.name) && vec2_in_range(c.position)
}

/// Whether every record of a snapshot can go on the wire: the runtime
/// check an unverified host makes before serializing.
pub fn game_state_in_range(g: &GameState) -> (r: bool)
    ensures
        r == game_state_wf(g@),
{
    let mut i: usize = 0;
    while i < g.red_team.len()
        invariant
            0 <= i <= g.red_team@.len(),
            forall|t: int| 0 <= t < i ==> agent_wf(#[trigger] agent_views(g.red_team@)[t]),
        decreases g.red_team@.len() - i,
    {
        proof {
            assert(agent_views(g.red_team@)[i as int] == g.red_team@[i as int]@);
        }
        if !agent_in_range(&g.red_team[i]) {
            return false;
        }
        i += 1;
    }
    let mut i: usize = 0;
    while i < g.blue_team.len()
        invariant
            0 <= i <= g.blue_team@.len(),
            agents_wf(agent_views(g.red_team@)),
            forall|t: int| 0 <= t < i ==> agent_wf(#[trigger] agent_views(g.blue_team@)[t]),
        decreases g.blue_team@.len() - i,
    {
        proof {
            assert(agent_views(g.blue_team@)[i as int] == g.blue_team@[i as int]@);
        }
        if !agent_in_range(&g.blue_team[i]) {
            return false;
        }
        i += 1;
    }
    let mut i: usize = 0;
    while i < g.red_flags.len()
        invariant
            0 <= i <= g.red_flags@.len(),
            agents_wf(agent_views(g.red_team@)),
            agents_wf(agent_views(g.blue_team@)),
            forall|t: int| 0 <= t < i ==> flag_wf(#[trigger] flag_views(g.red_flags@)[t]),
        decreases g.red_flags@.len() - i,
    {
        proof {
            assert(flag_views(g.red_flags@)[i as int] == g.red_flags@[i as int]@);
        }
        if !flag_in_range(&g.red_flags[i]) {
            return false;
        }
        i += 1;
    }
    let mut i: usize = 0;
    while i < g.blue_flags.len()
        invariant
            0 <= i <= g.blue_flags@.len(),
            agents_wf(agent_views(g.red_team@)),
            agents_wf(agent_views(g.blue_team@)),
            flags_wf(flag_views(g.red_flags@)),
            forall|t: int| 0 <= t < i ==> flag_wf(#[trigger] flag_views(g.blue_flags@)[t]),
        decreases g.blue_flags@.len() - i,
    {
        proof {
            assert(flag_views(g.blue_flags@)[i as int] == g.blue_flags@[i as int]@);
        }
        if !flag_in_range(&g.blue_flags[i]) {
            return false;
        }
        i += 1;
    }
    let mut i: usize = 0;
    while i < g.red_capture_points.len()
        invariant
            0 <= i <= g.red_capture_points@.len(),
            agents_wf(agent_views(g.red_team@)),
            agents_wf(agent_views(g.blue_team@)),
            flags_wf(flag_views(g.red_flags@)),
            flags_wf(flag_views(g.blue_flags@)),
            forall|t: int|
                0 <= t < i ==> capture_point_wf(
                    #[trigger] capture_point_views(g.red_capture_points@)[t],
                ),
        decreases g.red_capture_points@.len() - i,
    {
        proof {
            assert(capture_point_views(g.red_capture_points@)[i as int] == g.red_capture_points@[i as int]@);
        }
        if !capture_point_in_range(&g.red_capture_points[i]) {
            return false;
        }
        i += 1;
    }
    let mut i: usize = 0;
    while i < g.blue_capture_points.len()
        invariant
            0 <= i <= g.blue_capture_points@.len(),
            agents_wf(agent_views(g.red_team@)),
            agents_wf(agent_views(g.blue_team@)),
            flags_wf(flag_views(g.red_flags@)),
            flags_wf(flag_views(g.blue_flags@)),
            capture_points_wf(capture_point_views(g.red_capture_points@)),
            forall|t: int|
                0 <= t < i ==> capture_point_wf(
                    #[trigger] capture_point_views(g.blue_capture_points@)[t],
                ),
        decreases g.blue_capture_points@.len() - i,
    {
        proof {
            assert(capture_point_views(g.blue_capture_points@)[i as int] == g.blue_capture_points@[i as int]@);
        }
        if !capture_point_in_range(&g.blue_capture_points[i]) {
            return false;
        }
        i += 1;
    }
    true
}


} // verus!
