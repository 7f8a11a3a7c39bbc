use vstd::prelude::*;

verus! {

/// The fetch retry policy as a first-class value: how many attempts are
/// allowed (none set means unbounded) and how long to wait between them.
/// The default preserves the crawler's historical behavior: retry forever,
/// with no backoff.
pub struct RetryPolicy {
    pub max_attempts: Option<u64>,
    pub backoff_ms: u64,
}

impl RetryPolicy {
    /// The default policy: unbounded attempts, no backoff.
    pub fn unbounded() -> (p: Self)
        ensures
            p.max_attempts is None,
            p.backoff_ms == 0,
    {
        RetryPolicy { max_attempts: None, backoff_ms: 0 }
    }

    /// Decides, after `attempts_made` failed attempts, whether to try again
    /// and how many milliseconds to wait first: another attempt is allowed
    /// exactly while the bound (if any) is not reached.
    pub fn next_delay(&self, attempts_made: u64) -> (r: Option<u64>)
        ensures
            match r {
                Some(delay) => delay == self.backoff_ms && (match self.max_attempts {
                    Some(m) => attempts_made < m,
                    None => true,
                }),
                None => self.max_attempts matches Some(m) && attempts_made >= m,
            },
    {
        match self.max_attempts {
            Some(m) => {
                if attempts_made < m {
                    Some(self.backoff_ms)
                } else {
                    None
                }
            },
            None => Some(self.backoff_ms),
        }
    }
}

} // verus!
