//! Feed configuration: which feeds to poll and how often.

use vstd::prelude::*;

verus! {

/// The refresh interval, in minutes, of a configuration that names none.
pub const DEFAULT_REFRESH_INTERVAL: u64 = 15;

/// One configured feed.
#[derive(Debug)]
pub struct FeedConfig {
    pub name: String,
    pub url: String,
    pub has_discussion: bool,
}

/// The whole configuration.
#[derive(Debug)]
pub struct Config {
    /// Refresh interval in minutes.
    pub refresh_interval: u64,
    pub feeds: Vec<FeedConfig>,
}

/// What a `FeedConfig` says, as plain mathematical values.
pub struct FeedConfigView {
    pub name: Seq<char>,
    pub url: Seq<char>,
    pub has_discussion: bool,
}

impl View for FeedConfig {
    type V = FeedConfigView;

    open spec fn view(&self) -> FeedConfigView {
        FeedConfigView { name: self.name@, url: self.url@, has_discussion: self.has_discussion }
    }
}

/// The views of a sequence of configured feeds.
pub open spec fn config_views(configs: Seq<FeedConfig>) -> Seq<FeedConfigView> {
    configs.map_values(|c: FeedConfig| c@)
}

impl Clone for FeedConfig {
    fn clone(&self) -> (r: Self)
        ensures
            r == *self,
    {
        FeedConfig {
            name: self.name.clone(),
            url: self.url.clone(),
            has_discussion: self.has_discussion,
        }
    }
}

impl Clone for Config {
    fn clone(&self) -> (r: Self)
        ensures
            r.refresh_interval == self.refresh_interval,
            config_views(r.feeds@) == config_views(self.feeds@),
    {
        let mut feeds: Vec<FeedConfig> = Vec::new();
        let mut i: usize = 0;
        while i < self.feeds.len()
            invariant
                i <= self.feeds@.len(),
                feeds@.len() == i,
                forall|k: int| 0 <= k < i ==> (#[trigger] feeds@[k]) == self.feeds@[k],
            decreases self.feeds@.len() - i,
        {
            feeds.push(self.feeds[i].clone());
            i += 1;
        }
        proof {
            assert(config_views(feeds@) =~= config_views(self.feeds@));
        }
        Config { refresh_interval: self.refresh_interval, feeds }
    }
}

/// The interval used when the configuration does not set one.
pub fn default_refresh_interval() -> (minutes: u64)
    ensures
        minutes == DEFAULT_REFRESH_INTERVAL,
        minutes == 15,
{
    DEFAULT_REFRESH_INTERVAL
}

} // verus!
