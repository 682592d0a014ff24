//! The command-invocation surface: sending correlated requests to the
//! worker.
//!
//! A send assigns the next identifier, registers the pending request, and
//! hands the caller the encoded request line to write to the worker's
//! input. Registration comes before the line is handed out, so a reply
//! can never arrive for a request that is not yet pending.
use vstd::prelude::*;

use crate::dispatch::DispatchView;
use crate::dispatch::Dispatcher;
use crate::encode::encode_request;
use crate::encode::has_line_break;
use crate::encode::spec_has_line_break;
use crate::encode::spec_request_line;
use crate::supervisor::Supervisor;

verus! {

/// Why a send was refused.
#[derive(Clone, Copy, PartialEq, Eq, Structural, Debug)]
pub enum SendError {
    /// The worker is not running; writing would fail or block, so the
    /// send fails immediately instead.
    WorkerNotRunning,
    /// The caller's argument text holds a line break and cannot ride on a
    /// line-oriented protocol.
    PayloadNotOneLine,
}

/// Model of the optional argument text.
pub open spec fn view_opt_arg(a: Option<&str>) -> Option<Seq<char>> {
    match a {
        Some(s) => Some(s@),
        None => None,
    }
}

/// Whether the argument text holds a line break.
pub open spec fn spec_args_broken(a: Option<Seq<char>>) -> bool {
    match a {
        Some(s) => spec_has_line_break(s),
        None => false,
    }
}

/// Every outstanding request's identifier was assigned before the next
/// one to be handed out: the freshness the gateway maintains.
pub open spec fn ids_below(d: DispatchView, next_id: u64) -> bool {
    forall|k: int| 0 <= k < d.pending.len() ==> #[trigger] d.pending[k] < next_id
}

/// Assigns process-unique, monotonically increasing request identifiers.
pub struct Gateway {
    next_id: u64,
}

impl View for Gateway {
    type V = u64;

    closed spec fn view(&self) -> u64 {
        self.next_id
    }
}

impl Gateway {
    /// A gateway whose first request will carry identifier 1.
    pub fn new() -> (g: Gateway)
        ensures
            g@ == 1u64,
    {
        Gateway { next_id: 1 }
    }

    /// Sends one request: assigns the next identifier, registers the
    /// pending request with the dispatcher, and returns the identifier
    /// with the encoded line for the caller to write to the worker's
    /// input. Fails, changing nothing, when the worker is not running or
    /// when the argument text could not ride on one line.
    pub fn send(
        &mut self,
        disp: &mut Dispatcher,
        sup: &Supervisor,
        command: &str,
        args: Option<&str>,
    ) -> (r: Result<(u64, String), SendError>)
        requires
            old(disp)@.wf(),
            ids_below(old(disp)@, old(self)@),
            old(self)@ < u64::MAX,
        ensures
            final(disp)@.wf(),
            ids_below(final(disp)@, final(self)@),
            final(disp)@.subs == old(disp)@.subs,
            final(disp)@.next_token == old(disp)@.next_token,
            r is Ok <==> (sup@ is Running && !spec_args_broken(view_opt_arg(args))),
            r is Err ==> final(disp)@ == old(disp)@ && final(self)@ == old(self)@,
            !(sup@ is Running) ==> r == Err::<(u64, String), SendError>(
                SendError::WorkerNotRunning,
            ),
            sup@ is Running && spec_args_broken(view_opt_arg(args)) ==> r == Err::<
                (u64, String),
                SendError,
            >(SendError::PayloadNotOneLine),
            r matches Ok(p) ==> ({
                &&& p.0 == old(self)@
                &&& p.1@ == spec_request_line(old(self)@, command@, view_opt_arg(args))
                &&& final(self)@ == old(self)@ + 1
                &&& final(disp)@.pending == old(disp)@.pending.push(old(self)@)
            }),
    {
        if !sup.is_running() {
            return Err(SendError::WorkerNotRunning);
        }
        match args {
            Some(a) => {
                if has_line_break(a) {
                    return Err(SendError::PayloadNotOneLine);
                }
            },
            None => {
            },
        }
        let id = self.next_id;
        proof {
            assert(!old(disp)@.pending.contains(id)) by {
                if old(disp)@.pending.contains(id) {
                    let k = choose|k: int|
                        0 <= k < old(disp)@.pending.len() && old(disp)@.pending[k] == id;
                    assert(old(disp)@.pending[k] < id);
                }
            }
        }
        self.next_id = self.next_id + 1;
        disp.register_pending(id);
        let line = encode_request(id, command, args);
        proof {
            assert forall|k: int| 0 <= k < disp@.pending.len() implies #[trigger] disp@.pending[k]
                < self.next_id by {
                if k < disp@.pending.len() - 1 {
                    assert(disp@.pending[k] == old(disp)@.pending[k]);
                }
            }
        }
        Ok((id, line))
    }
}

} // verus!
