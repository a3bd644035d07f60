//! The closed set of streams and the routing of fact types to them.
use vstd::prelude::*;

verus! {

/// One of the ledger's named, append-only partitions.
#[derive(Clone, Copy, Debug, PartialEq, Eq, Structural)]
pub enum Stream {
    Plans,
    Assets,
    Queue,
    Playout,
    Policy,
}

/// The number of streams.
pub const STREAM_COUNT: usize = 5;

/// The position of a stream in the fixed scan order `plans, assets, queue, playout, policy`.
pub open spec fn stream_index(s: Stream) -> int {
    match s {
        Stream::Plans => 0,
        Stream::Assets => 1,
        Stream::Queue => 2,
        Stream::Playout => 3,
        Stream::Policy => 4,
    }
}

/// The stream at a position of the fixed scan order.
pub open spec fn stream_at(i: int) -> Stream {
    if i == 0 {
        Stream::Plans
    } else if i == 1 {
        Stream::Assets
    } else if i == 2 {
        Stream::Queue
    } else if i == 3 {
        Stream::Playout
    } else {
        Stream::Policy
    }
}

/// The name of a stream.
pub open spec fn stream_name(s: Stream) -> Seq<char> {
    match s {
        Stream::Plans => "plans"@,
        Stream::Assets => "assets"@,
        Stream::Queue => "queue"@,
        Stream::Playout => "playout"@,
        Stream::Policy => "policy"@,
    }
}

/// The stream that a fact type discriminator belongs to, if it is a known one.
pub open spec fn route_spec(t: Seq<char>) -> Option<Stream> {
    if t == "PlanCreated"@ || t == "PlanScheduledForDownload"@ || t == "PlanArchived"@ {
        Some(Stream::Plans)
    } else if t == "AssetCreated"@ || t == "AssetDownloadStarted"@ || t
        == "AssetDownloadCompleted"@ || t == "AssetDownloadFailed"@ || t == "AssetReady"@ || t
        == "QCReport"@ {
        Some(Stream::Assets)
    } else if t == "QueueItemAdded"@ || t == "QueueItemPromoted"@ || t == "QueueItemRemoved"@
        || t == "CuratorDecision"@ {
        Some(Stream::Queue)
    } else if t == "PlayoutSegmentAppended"@ || t == "PlayoutRotated"@ || t
        == "PlayoutEmergencyLoop"@ || t == "StreamEvent"@ {
        Some(Stream::Playout)
    } else if t == "PolicyPatched"@ || t == "PolicyRollback"@ || t == "AutopilotApplied"@ || t
        == "AutopilotRollback"@ {
        Some(Stream::Policy)
    } else {
        None
    }
}

impl Stream {
    /// The stream at position `i` of the fixed scan order.
    pub fn from_index(i: usize) -> (r: Stream)
        requires
            i < STREAM_COUNT,
        ensures
            r == stream_at(i as int),
            stream_index(r) == i,
    {
        if i == 0 {
            Stream::Plans
        } else if i == 1 {
            Stream::Assets
        } else if i == 2 {
            Stream::Queue
        } else if i == 3 {
            Stream::Playout
        } else {
            Stream::Policy
        }
    }

    /// The position of this stream in the fixed scan order.
    pub fn index(&self) -> (r: usize)
        ensures
            r == stream_index(*self),
            r < STREAM_COUNT,
    {
        match self {
            Stream::Plans => 0,
            Stream::Assets => 1,
            Stream::Queue => 2,
            Stream::Playout => 3,
            Stream::Policy => 4,
        }
    }

    /// The stream's name.
    pub fn name(&self) -> (r: &'static str)
        ensures
            r@ == stream_name(*self),
    {
        proof {
            reveal_strlit("plans");
            reveal_strlit("assets");
            reveal_strlit("queue");
            reveal_strlit("playout");
            reveal_strlit("policy");
        }
        match self {
            Stream::Plans => "plans",
            Stream::Assets => "assets",
            Stream::Queue => "queue",
            Stream::Playout => "playout",
            Stream::Policy => "policy",
        }
    }

    /// The stream with the given name, if any.
    pub fn from_name(n: &str) -> (r: Option<Stream>)
        ensures
            r matches Some(s) ==> stream_name(s) == n@,
            r is None ==> forall|s: Stream| stream_name(s) != n@,
    {
        let mut i: usize = 0;
        while i < STREAM_COUNT
            invariant
                i <= STREAM_COUNT,
                forall|j: int| 0 <= j < i ==> stream_name(#[trigger] stream_at(j)) != n@,
            decreases STREAM_COUNT - i,
        {
            let s = Stream::from_index(i);
            if str_eq(s.name(), n) {
                return Some(s);
            }
            i = i + 1;
        }
        proof {
            assert forall|s: Stream| stream_name(s) != n@ by {
                assert(stream_at(stream_index(s)) == s);
            }
        }
        None
    }
}

/// Whether two strings hold the same characters.
pub fn str_eq(a: &str, b: &str) -> (r: bool)
    ensures
        r == (a@ == b@),
{
    let n = a.unicode_len();
    if n != b.unicode_len() {
        return false;
    }
    let mut i: usize = 0;
    while i < n
        invariant
            n == a@.len(),
            n == b@.len(),
            i <= n,
            forall|j: int| 0 <= j < i ==> a@[j] == b@[j],
        decreases n - i,
    {
        if a.get_char(i) != b.get_char(i) {
            return false;
        }
        i = i + 1;
    }
    assert(a@ =~= b@);
    true
}

/// Routes a fact type discriminator to its stream, or `None` for an unknown one.
pub fn route_stream(t: &str) -> (r: Option<Stream>)
    ensures
        r == route_spec(t@),
{
    if str_eq(t, "PlanCreated") || str_eq(t, "PlanScheduledForDownload") || str_eq(
        t,
        "PlanArchived",
    ) {
        Some(Stream::Plans)
    } else if str_eq(t, "AssetCreated") || str_eq(t, "AssetDownloadStarted") || str_eq(
        t,
        "AssetDownloadCompleted",
    ) || str_eq(t, "AssetDownloadFailed") || str_eq(t, "AssetReady") || str_eq(t, "QCReport") {
        Some(Stream::Assets)
    } else if str_eq(t, "QueueItemAdded") || str_eq(t, "QueueItemPromoted") || str_eq(
        t,
        "QueueItemRemoved",
    ) || str_eq(t, "CuratorDecision") {
        Some(Stream::Queue)
    } else if str_eq(t, "PlayoutSegmentAppended") || str_eq(t, "PlayoutRotated") || str_eq(
        t,
        "PlayoutEmergencyLoop",
    ) || str_eq(t, "StreamEvent") {
        Some(Stream::Playout)
    } else if str_eq(t, "PolicyPatched") || str_eq(t, "PolicyRollback") || str_eq(
        t,
        "AutopilotApplied",
    ) || str_eq(t, "AutopilotRollback") {
        Some(Stream::Policy)
    } else {
        None
    }
}

} // verus!
