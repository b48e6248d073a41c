//! Starting one listener and watching what is written to its upstreams.
use vstd::prelude::*;
use vstd::slice::slice_subrange;
use crate::bytes;
use crate::config::ListenerMode;
use crate::dataplane::flow;
use crate::dataplane::flow::{Source, Step};

verus! {

/// How often a bind that failed is tried again.
pub const MAX_RETRY: u32 = 3;

/// What follows an attempt to bind.
#[derive(Debug, Clone, Copy, PartialEq, Eq, Structural)]
pub enum BindStep {
    /// The listener runs.
    Run,
    /// Try again after so many milliseconds.
    Retry { ms: u64 },
    /// The listener is not started.
    GiveUp,
}

/// Decides after the attempt that `retries` others preceded.
pub fn after_bind(bound: bool, retries: u32) -> (r: BindStep)
    ensures
        r == if bound {
            BindStep::Run
        } else if retries < MAX_RETRY {
            BindStep::Retry { ms: 100 }
        } else {
            BindStep::GiveUp
        },
{
    if bound {
        BindStep::Run
    } else if retries < MAX_RETRY {
        BindStep::Retry { ms: 100 }
    } else {
        BindStep::GiveUp
    }
}

/// What a listener reported within a second of its start.
#[derive(Debug)]
pub enum StartReport {
    /// Nothing yet.
    Silent,
    /// It is bound.
    Bound,
    /// It could not be bound.
    Failed(String),
}

/// Whether a listener counts as started: only a reported failure says
/// otherwise.
pub fn start_outcome(report: StartReport) -> (r: Result<(), String>)
    ensures
        match report {
            StartReport::Failed(cause) => r == Err::<(), String>(cause),
            _ => r == Ok::<(), String>(()),
        },
{
    match report {
        StartReport::Silent => Ok(()),
        StartReport::Bound => Ok(()),
        StartReport::Failed(cause) => Err(cause),
    }
}

/// The steps of a connection on a listener without routes. Its record is left
/// alone but for the bytes of the hello, which count once they were sent.
pub open spec fn worker_steps(mode: ListenerMode, upstream_tls: bool) -> Seq<Step> {
    match mode {
        ListenerMode::Passthrough => seq![
            Step::AcceptHello { seconds: 3 },
            Step::RefuseLoopedHello,
            Step::CheckAccess { recorded: false },
            Step::Select { source: Source::Client },
            Step::RememberHello,
            Step::Connect { seconds: 5 },
            Step::SendHead,
            Step::CountHead,
            Step::Relay,
        ],
        ListenerMode::Terminate => seq![
            Step::AcceptHello { seconds: 5 },
            Step::CheckAccess { recorded: false },
            Step::Select { source: Source::Client },
            Step::MintCertificate,
            Step::Handshake { seconds: 5 },
        ] + flow::one(Step::RefuseSelf, upstream_tls) + seq![Step::Connect { seconds: 5 }] + flow::one(
            Step::WrapTls { limit: None },
            upstream_tls,
        ) + seq![Step::Relay],
        ListenerMode::Forward => seq![Step::Select { source: Source::Listener }, Step::Connect { seconds: 5 }]
            + flow::one(Step::WrapTls { limit: None }, upstream_tls) + seq![Step::Relay],
    }
}

fn worker_passthrough() -> (r: Vec<Step>)
    ensures
        forall|upstream_tls: bool| r@ == #[trigger] worker_steps(ListenerMode::Passthrough, upstream_tls),
{
    let r = vec![
        Step::AcceptHello { seconds: 3 },
        Step::RefuseLoopedHello,
        Step::CheckAccess { recorded: false },
        Step::Select { source: Source::Client },
        Step::RememberHello,
        Step::Connect { seconds: 5 },
        Step::SendHead,
        Step::CountHead,
        Step::Relay,
    ];
    assert(r@ =~= worker_steps(ListenerMode::Passthrough, true));
    r
}

fn worker_terminate(upstream_tls: bool) -> (r: Vec<Step>)
    ensures
        r@ == worker_steps(ListenerMode::Terminate, upstream_tls),
{
    let mut r = vec![
        Step::AcceptHello { seconds: 5 },
        Step::CheckAccess { recorded: false },
        Step::Select { source: Source::Client },
        Step::MintCertificate,
        Step::Handshake { seconds: 5 },
    ];
    flow::append(&mut r, Step::RefuseSelf, upstream_tls);
    r.push(Step::Connect { seconds: 5 });
    flow::append(&mut r, Step::WrapTls { limit: None }, upstream_tls);
    r.push(Step::Relay);
    assert(r@ =~= worker_steps(ListenerMode::Terminate, upstream_tls));
    r
}

fn worker_forward(upstream_tls: bool) -> (r: Vec<Step>)
    ensures
        r@ == worker_steps(ListenerMode::Forward, upstream_tls),
{
    let mut r = vec![Step::Select { source: Source::Listener }, Step::Connect { seconds: 5 }];
    flow::append(&mut r, Step::WrapTls { limit: None }, upstream_tls);
    r.push(Step::Relay);
    assert(r@ =~= worker_steps(ListenerMode::Forward, upstream_tls));
    r
}

pub fn worker(mode: ListenerMode, upstream_tls: bool) -> (r: Vec<Step>)
    ensures
        r@ == worker_steps(mode, upstream_tls),
{
    match mode {
        ListenerMode::Passthrough => worker_passthrough(),
        ListenerMode::Terminate => worker_terminate(upstream_tls),
        ListenerMode::Forward => worker_forward(upstream_tls),
    }
}

/// Gathers the first bytes that are written upstream until the random of the
/// ClientHello in them is known.
pub struct HelloObserver {
    pub buffered: Vec<u8>,
    pub registered: bool,
    pub limit: usize,
}

impl HelloObserver {
    pub open spec fn wf(self) -> bool {
        self.buffered@.len() <= self.limit
    }

    pub fn new(limit: usize) -> (r: HelloObserver)
        ensures
            r.wf(),
            r.buffered@.len() == 0,
            !r.registered,
            r.limit == limit,
    {
        HelloObserver { buffered: Vec::new(), registered: false, limit }
    }

    /// Takes in written bytes as far as there is room. Yields whether the
    /// gathered bytes are to be searched for the random.
    pub fn observe_write(&mut self, written: &[u8]) -> (r: bool)
        requires
            old(self).wf(),
        ensures
            final(self).wf(),
            final(self).registered == old(self).registered,
            final(self).limit == old(self).limit,
            r == (!old(self).registered && old(self).buffered@.len() < old(self).limit),
            !r ==> *final(self) == *old(self),
            r ==> final(self).buffered@ == if old(self).buffered@.len() + written@.len() <= old(self).limit {
                old(self).buffered@ + written@
            } else {
                (old(self).buffered@ + written@).take(old(self).limit as int)
            },
    {
        if self.registered || self.buffered.len() >= self.limit {
            return false;
        }
        let remaining: usize = self.limit - self.buffered.len();
        let count = if written.len() < remaining {
            written.len()
        } else {
            remaining
        };
        let part = slice_subrange(written, 0, count);
        let ghost b0 = self.buffered@;
        bytes::push_all(&mut self.buffered, part);
        proof {
            assert(part@ =~= written@.take(count as int));
            if b0.len() + written@.len() <= self.limit {
                assert(self.buffered@ =~= b0 + written@);
            } else {
                assert(self.buffered@ =~= (b0 + written@).take(self.limit as int));
            }
        }
        true
    }

    /// The random was found and recorded; nothing more is gathered.
    pub fn register(&mut self)
        requires
            old(self).wf(),
        ensures
            final(self).wf(),
            *final(self) == (HelloObserver { registered: true, ..*old(self) }),
    {
        self.registered = true;
    }
}

/// Binding is tried again three times, with a pause, and given up only then.
pub proof fn binding_is_tried_again(bound: bool, retries: u32, r: BindStep)
    requires
        call_ensures(after_bind, (bound, retries), r),
    ensures
        bound <==> r == BindStep::Run,
        !bound && retries < 3 ==> r == (BindStep::Retry { ms: 100 }),
        !bound && retries >= 3 ==> r == BindStep::GiveUp,
{
}

/// Bytes that are written are gathered up to the limit, in order, until the
/// random was found.
pub proof fn written_bytes_are_gathered(observer: &mut HelloObserver, written: &[u8], r: bool)
    requires
        old(observer).wf(),
        call_ensures(HelloObserver::observe_write, (observer, written), r),
    ensures
        old(observer).registered ==> !r && final(observer).buffered@ == old(observer).buffered@,
        !old(observer).registered && old(observer).buffered@.len() + written@.len() <= old(observer).limit
            && old(observer).buffered@.len() < old(observer).limit ==> r && final(observer).buffered@ == old(observer).buffered@ + written@,
        final(observer).buffered@.len() <= old(observer).limit,
{
}

} // verus!
