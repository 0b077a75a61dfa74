//! App-wide settings: the list of recent campaigns, the windows and the
//! savepoints.

use vstd::prelude::*;
use vstd::string::*;
use crate::text::equal;

verus! {

/// App-wide settings that are not campaign-specific.
#[derive(Debug, Clone)]
pub struct AppSettings {
    /// Recently opened campaign paths, most recent first.
    pub recent_campaigns: Vec<String>,
    /// Main window state.
    pub window: WindowSettings,
    /// Player-facing window state.
    pub player_window: WindowSettings,
    /// Savepoint configuration.
    pub savepoints: SavepointSettings,
}

/// Window position and size state.
#[derive(Debug, Clone)]
pub struct WindowSettings {
    pub x: Option<i32>,
    pub y: Option<i32>,
    pub width: Option<u32>,
    pub height: Option<u32>,
    pub maximized: bool,
}

/// Savepoint configuration.
#[derive(Debug, Clone)]
pub struct SavepointSettings {
    /// When to create savepoints.
    pub trigger: SavepointTrigger,
    /// Maximum number of savepoints to keep. Older ones are pruned.
    pub max_count: u32,
}

/// When to automatically create encounter savepoints.
#[derive(Debug, Clone, Copy, PartialEq, Eq, Structural)]
pub enum SavepointTrigger {
    /// Create a savepoint after each turn.
    Turn,
    /// Create a savepoint after each round.
    Round,
}

/// The most recent campaigns that the list keeps.
pub const MAX_RECENT: usize = 10;

/// The number of savepoints kept where the settings name none.
pub fn default_max_savepoints() -> (n: u32)
    ensures
        n == 50,
{
    50
}

impl Default for SavepointTrigger {
    fn default() -> (t: Self)
        ensures
            t == SavepointTrigger::Turn,
    {
        SavepointTrigger::Turn
    }
}

impl Default for WindowSettings {
    fn default() -> (w: Self)
        ensures
            w.x is None,
            w.y is None,
            w.width == Some(1280u32),
            w.height == Some(720u32),
            !w.maximized,
    {
        Self { x: None, y: None, width: Some(1280), height: Some(720), maximized: false }
    }
}

impl Default for SavepointSettings {
    fn default() -> (s: Self)
        ensures
            s.trigger == SavepointTrigger::Turn,
            s.max_count == 50,
    {
        Self { trigger: SavepointTrigger::Turn, max_count: default_max_savepoints() }
    }
}

impl Default for AppSettings {
    fn default() -> (s: Self)
        ensures
            s.recent_campaigns@.len() == 0,
            s.savepoints.max_count == 50,
            s.savepoints.trigger == SavepointTrigger::Turn,
    {
        Self {
            recent_campaigns: Vec::new(),
            window: WindowSettings::default(),
            player_window: WindowSettings::default(),
            savepoints: SavepointSettings::default(),
        }
    }
}

/// `paths` without those that read `path`, the others in their order.
pub open spec fn without(paths: Seq<String>, path: Seq<char>) -> Seq<String>
    decreases paths.len(),
{
    if paths.len() == 0 {
        paths
    } else if paths.last()@ == path {
        without(paths.drop_last(), path)
    } else {
        without(paths.drop_last(), path).push(paths.last())
    }
}

/// The first `limit` of `paths`, or all of them if there are fewer.
pub open spec fn capped(paths: Seq<String>, limit: int) -> Seq<String> {
    if paths.len() > limit {
        paths.take(limit)
    } else {
        paths
    }
}

fn retain_others(paths: &mut Vec<String>, path: &str)
    ensures
        final(paths)@ == without(old(paths)@, path@),
{
    let mut kept: Vec<String> = Vec::new();
    let mut i: usize = 0;
    while i < paths.len()
        invariant
            i <= paths.len(),
            paths@ == old(paths)@,
            kept@ == without(paths@.take(i as int), path@),
        decreases paths.len() - i,
    {
        assert(paths@.take(i as int + 1).drop_last() =~= paths@.take(i as int));
        if !equal(paths[i].as_str(), path) {
            kept.push(paths[i].clone());
        }
        i = i + 1;
    }
    assert(paths@.take(paths.len() as int) =~= paths@);
    *paths = kept;
}

impl AppSettings {
    /// Adds a campaign to the front of the recent list. A path that is in
    /// the list already moves to the front; the list keeps the ten most
    /// recent.
    pub fn add_recent_campaign(&mut self, path: String)
        ensures
            final(self).recent_campaigns@ == capped(
                seq![path] + without(old(self).recent_campaigns@, path@),
                MAX_RECENT as int,
            ),
            final(self).window == old(self).window,
            final(self).player_window == old(self).player_window,
            final(self).savepoints == old(self).savepoints,
    {
        retain_others(&mut self.recent_campaigns, path.as_str());
        let ghost rest = self.recent_campaigns@;
        self.recent_campaigns.insert(0, path);
        assert(self.recent_campaigns@ =~= seq![path] + rest);
        self.recent_campaigns.truncate(MAX_RECENT);
        assert(self.recent_campaigns@ =~= capped(seq![path] + rest, MAX_RECENT as int));
    }

    /// Removes a campaign from the recent list.
    pub fn remove_recent_campaign(&mut self, path: &str)
        ensures
            final(self).recent_campaigns@ == without(old(self).recent_campaigns@, path@),
            final(self).window == old(self).window,
            final(self).player_window == old(self).player_window,
            final(self).savepoints == old(self).savepoints,
    {
        retain_others(&mut self.recent_campaigns, path);
    }
}

} // verus!
