//! Carrying runtime state over from the previous bundle to the one being
//! activated: what is done with each file, and the report of it.
use vstd::prelude::*;

use crate::text::{pieces, split_pieces, text, text_eq};

verus! {

/// What is done with one file of the previous bundle's state.
#[derive(Clone, Copy, Debug, PartialEq, Eq, Structural)]
pub enum PromotionStep {
    /// The new bundle already has the file: it is kept.
    Skip,
    /// A session record: copied, assigned to the new bundle.
    RewriteSession,
    /// Any other file: copied as it is.
    Copy,
}

/// A path lies in a `sessions` directory when one of its components is
/// `sessions`.
pub open spec fn in_sessions_dir(path: Seq<char>) -> bool {
    pieces(path, '/').contains("sessions"@)
}

/// What is done with the file at `source_path`, given whether the new
/// bundle's state already has it.
pub fn promotion_step(source_path: &str, dest_exists: bool) -> (r: PromotionStep)
    ensures
        r == if dest_exists {
            PromotionStep::Skip
        } else if in_sessions_dir(source_path@) {
            PromotionStep::RewriteSession
        } else {
            PromotionStep::Copy
        },
{
    if dest_exists {
        return PromotionStep::Skip;
    }
    let parts = split_pieces(source_path, '/');
    let ghost ps = parts@.map_values(|x: String| x@);
    let mut i: usize = 0;
    while i < parts.len()
        invariant
            !dest_exists,
            i <= parts@.len(),
            ps == parts@.map_values(|x: String| x@),
            ps == pieces(source_path@, '/'),
            forall|j: int| 0 <= j < i ==> ps[j] != "sessions"@,
        decreases parts@.len() - i,
    {
        assert(ps[i as int] == parts@[i as int]@);
        if text_eq(parts[i].as_str(), "sessions") {
            proof {
                assert(ps[i as int] == parts@[i as int]@);
                assert(ps[i as int] == "sessions"@);
                assert(ps.contains("sessions"@));
            }
            return PromotionStep::RewriteSession;
        }
        i += 1;
    }
    proof {
        assert forall|j: int| 0 <= j < ps.len() implies ps[j] != "sessions"@ by {}
    }
    PromotionStep::Copy
}

/// How promoting runtime state between two bundles went.
#[derive(Debug, PartialEq, Eq)]
pub struct RuntimeStatePromotionReport {
    from_bundle_id: String,
    to_bundle_id: String,
    copied_files: usize,
    rewritten_sessions: usize,
}

impl RuntimeStatePromotionReport {
    /// The bundle the state came from.
    pub closed spec fn from_id(&self) -> Seq<char> {
        self.from_bundle_id@
    }

    /// The bundle the state went to.
    pub closed spec fn to_id(&self) -> Seq<char> {
        self.to_bundle_id@
    }

    /// Files copied, session records included.
    pub closed spec fn copied(&self) -> nat {
        self.copied_files as nat
    }

    /// Session records copied and assigned to the new bundle.
    pub closed spec fn rewritten(&self) -> nat {
        self.rewritten_sessions as nat
    }

    /// Every rewritten session record is one of the copied files.
    #[verifier::type_invariant]
    closed spec fn sessions_are_files(&self) -> bool {
        self.rewritten_sessions <= self.copied_files
    }

    /// A report of nothing promoted yet.
    pub fn new(from_bundle_id: &str, to_bundle_id: &str) -> (r: Self)
        ensures
            r.from_id() == from_bundle_id@,
            r.to_id() == to_bundle_id@,
            r.copied() == 0,
            r.rewritten() == 0,
    {
        RuntimeStatePromotionReport {
            from_bundle_id: text(from_bundle_id),
            to_bundle_id: text(to_bundle_id),
            copied_files: 0,
            rewritten_sessions: 0,
        }
    }

    /// The bundle the state came from.
    pub fn from_bundle_id(&self) -> (r: &str)
        ensures
            r@ == self.from_id(),
    {
        self.from_bundle_id.as_str()
    }

    /// The bundle the state went to.
    pub fn to_bundle_id(&self) -> (r: &str)
        ensures
            r@ == self.to_id(),
    {
        self.to_bundle_id.as_str()
    }

    /// The number of files copied.
    pub fn copied_files(&self) -> (r: usize)
        ensures
            r == self.copied(),
    {
        self.copied_files
    }

    /// The number of session records rewritten.
    pub fn rewritten_sessions(&self) -> (r: usize)
        ensures
            r == self.rewritten(),
            r <= self.copied(),
    {
        proof {
            use_type_invariant(self);
        }
        self.rewritten_sessions
    }

    /// Counts a step: a copy counts a file, a rewritten session counts a
    /// file and a session, a skip counts nothing.
    pub fn record(self, step: PromotionStep) -> (r: Self)
        requires
            self.copied() < usize::MAX,
        ensures
            r.from_id() == self.from_id(),
            r.to_id() == self.to_id(),
            r.copied() == self.copied() + if step == PromotionStep::Skip {
                0nat
            } else {
                1nat
            },
            r.rewritten() == self.rewritten() + if step == PromotionStep::RewriteSession {
                1nat
            } else {
                0nat
            },
    {
        proof {
            use_type_invariant(&self);
        }
        let RuntimeStatePromotionReport { from_bundle_id, to_bundle_id, copied_files, rewritten_sessions } = self;
        match step {
            PromotionStep::Skip => RuntimeStatePromotionReport {
                from_bundle_id,
                to_bundle_id,
                copied_files,
                rewritten_sessions,
            },
            PromotionStep::Copy => RuntimeStatePromotionReport {
                from_bundle_id,
                to_bundle_id,
                copied_files: copied_files + 1,
                rewritten_sessions,
            },
            PromotionStep::RewriteSession => RuntimeStatePromotionReport {
                from_bundle_id,
                to_bundle_id,
                copied_files: copied_files + 1,
                rewritten_sessions: rewritten_sessions + 1,
            },
        }
    }

    /// Adds the counts of a nested directory's promotion.
    pub fn absorb(self, nested: &Self) -> (r: Self)
        requires
            self.copied() + nested.copied() <= usize::MAX,
        ensures
            r.from_id() == self.from_id(),
            r.to_id() == self.to_id(),
            r.copied() == self.copied() + nested.copied(),
            r.rewritten() == self.rewritten() + nested.rewritten(),
    {
        proof {
            use_type_invariant(&self);
            use_type_invariant(nested);
        }
        let RuntimeStatePromotionReport { from_bundle_id, to_bundle_id, copied_files, rewritten_sessions } = self;
        RuntimeStatePromotionReport {
            from_bundle_id,
            to_bundle_id,
            copied_files: copied_files + nested.copied_files,
            rewritten_sessions: rewritten_sessions + nested.rewritten_sessions,
        }
    }
}

} // verus!
