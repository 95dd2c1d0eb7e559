//! Serving a client: one request at a time.

use crate::clock::Reading;
use crate::commands::table::CommandHandler;
use crate::commands::{lemma_written, refusal, write_error, written, Outcome};
use crate::context::{Context, World};
use crate::error::Error;
use crate::session::Session;
use crate::storage::decode::{frame, Parse, Reader, MAX_DEPTH};
use crate::storage::hash::lemma_multi_view;
use crate::storage::value::{valid, valid_items, views, Data, Value};
use vstd::prelude::*;

verus! {

/// Whether `out` is an outcome of the request `request`: that of its
/// command where it is an array, and an error that changes nothing where it
/// is any other value.
pub open spec fn request_admits(
    commands: &CommandHandler,
    request: Data,
    pre: World,
    proto: u8,
    now: Reading,
    out: Outcome,
) -> bool {
    match request {
        Data::Multi(args) => commands.admits(args, pre, proto, now, out),
        _ => out == refusal(pre, proto, now, "Invalid request"@),
    }
}

/// Carries out one request and writes its reply to `writer`.
pub fn handle_request(
    request: Value,
    writer: &mut Vec<u8>,
    session: &mut Session,
    commands: &CommandHandler,
    context: &mut Context,
    now: Reading,
) -> (r: Result<(), Error>)
    requires
        old(context).wf(),
        request@.wf(),
    ensures
        final(context).wf(),
        old(writer)@.is_prefix_of(final(writer)@),
        r matches Err(e) ==> e is Glob,
        request_admits(
            commands,
            request@,
            old(context)@,
            old(session).proto(),
            now,
            (Outcome {
                world: final(context)@,
                proto: final(session).proto(),
                reply: written(old(writer)@, final(writer)@),
                failed: r is Err,
            }),
        ),
{
    match request {
        Value::Multi(args) => {
            let mut args = args;
            proof {
                lemma_multi_view(args);
                assert(valid_items(views(args@)));
                assert forall|i: int| 0 <= i < args@.len() implies (#[trigger] args@[i])@.wf() by {
                    assert(valid(views(args@)[i]));
                }
            }
            commands.handle_command(writer, &mut args, session, context, now)
        },
        _ => {
            write_error(writer, "Invalid request", now);
            proof {
                lemma_written(
                    old(writer)@,
                    refusal(context@, session.proto(), now, "Invalid request"@).reply,
                );
            }
            Ok(())
        },
    }
}

/// Serves the next request of a client: reads it off `reader`, carries it
/// out, and writes its reply to `writer`.
///
/// Returns `true` after a request, and `false`, with nothing changed, where
/// the bytes that have come hold no whole request yet: the client has more
/// to send, or has gone. Bytes that are no frame of the protocol, and an
/// error of the command, end the connection.
pub fn handle_client(
    reader: &mut Reader,
    writer: &mut Vec<u8>,
    session: &mut Session,
    commands: &CommandHandler,
    context: &mut Context,
    now: Reading,
) -> (r: Result<bool, Error>)
    requires
        old(context).wf(),
    ensures
        final(context).wf(),
        final(reader).bytes() == old(reader).bytes(),
        old(writer)@.is_prefix_of(final(writer)@),
        match frame(old(reader).bytes(), old(reader).position(), MAX_DEPTH as nat) {
            Parse::Frame(request, end) => {
                &&& final(reader).position() == end
                &&& !(r matches Ok(false))
                &&& r matches Err(e) ==> e is Glob
                &&& request_admits(
                    commands,
                    request,
                    old(context)@,
                    old(session).proto(),
                    now,
                    (Outcome {
                        world: final(context)@,
                        proto: final(session).proto(),
                        reply: written(old(writer)@, final(writer)@),
                        failed: r is Err,
                    }),
                )
            },
            Parse::NoValue => {
                &&& r matches Ok(false)
                &&& final(reader).position() == old(reader).position()
                &&& final(context)@ == old(context)@
                &&& final(session).proto() == old(session).proto()
                &&& final(writer)@ == old(writer)@
            },
            Parse::Fatal(m) => {
                &&& r matches Err(Error::Protocol(e)) && e == m
                &&& final(reader).position() == old(reader).position()
                &&& final(context)@ == old(context)@
                &&& final(session).proto() == old(session).proto()
                &&& final(writer)@ == old(writer)@
            },
        },
{
    match Value::from_resp(reader) {
        Err(e) => Err(e),
        Ok(None) => Ok(false),
        Ok(Some(request)) => match handle_request(
            request,
            writer,
            session,
            commands,
            context,
            now,
        ) {
            Ok(()) => Ok(true),
            Err(e) => Err(e),
        },
    }
}

} // verus!
