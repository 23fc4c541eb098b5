//! Service-boundary adapter: carries Cashu RPC bytes over a generic
//! request/reply service handler (the microfips service envelope).
use vstd::prelude::*;
use crate::util::str_eq;
use vstd::string::StringSliceAdditionalSpecFns;

verus! {

#[derive(Debug, Clone, Copy, PartialEq, Eq, Structural)]
pub enum ServiceMethod {
    Get,
    Post,
    Put,
    Delete,
}

#[derive(Debug, Clone, Copy, PartialEq, Eq, Structural)]
pub enum ContentType {
    Binary,
    Json,
    Text,
}

#[derive(Debug, Clone, Copy, PartialEq, Eq, Structural)]
pub enum ServiceStatus {
    Success,
    Created,
    BadRequest,
    NotFound,
    MethodNotAllowed,
    PayloadTooLarge,
    InternalError,
}

#[derive(Debug, Clone, Copy, PartialEq, Eq)]
pub struct ServiceError {
    pub status: ServiceStatus,
    pub message: &'static str,
}

impl ServiceError {
    pub fn bad_request(message: &'static str) -> (e: Self)
        ensures
            e.status == ServiceStatus::BadRequest,
            e.message == message,
    {
        Self { status: ServiceStatus::BadRequest, message }
    }

    pub fn internal_error(message: &'static str) -> (e: Self)
        ensures
            e.status == ServiceStatus::InternalError,
            e.message == message,
    {
        Self { status: ServiceStatus::InternalError, message }
    }
}

#[derive(Debug, Clone, Copy, PartialEq, Eq)]
pub struct ServiceRequest<'a> {
    pub method: ServiceMethod,
    pub route: &'a str,
    pub payload: &'a [u8],
}

#[derive(Debug, Clone, Copy, PartialEq, Eq, Structural)]
pub struct ServiceReply {
    pub status: ServiceStatus,
    pub content_type: ContentType,
    pub body_len: usize,
}

/// A request/reply service: handles one request, writing the reply body
/// into `response`.
pub trait ServiceHandler {
    fn handle(&mut self, request: ServiceRequest<'_>, response: &mut [u8]) -> Result<
        ServiceReply,
        ServiceError,
    >;
}

/// Route the Cashu RPC service answers on.
pub const CASHU_RPC_ROUTE: &'static str = "/rpc/mint";

/// Size of the default reply buffer.
pub const DEFAULT_RESPONSE_CAPACITY: usize = 16384;

/// Errors of an RPC byte exchange: protocol faults, transport faults, and
/// faults that fit neither.
#[derive(Debug, Clone, PartialEq, Eq)]
pub enum RpcError {
    Protocol(String),
    Transport(String),
    Unknown(String),
}

/// Abstract RPC error: kind and message.
pub enum RpcErrorView {
    Protocol(Seq<char>),
    Transport(Seq<char>),
    Unknown(Seq<char>),
}

impl View for RpcError {
    type V = RpcErrorView;

    open spec fn view(&self) -> RpcErrorView {
        match self {
            RpcError::Protocol(m) => RpcErrorView::Protocol(m@),
            RpcError::Transport(m) => RpcErrorView::Transport(m@),
            RpcError::Unknown(m) => RpcErrorView::Unknown(m@),
        }
    }
}

/// RPC error a service error maps to: request faults are protocol errors,
/// size and internal faults are transport errors.
pub open spec fn spec_service_error_to_rpc(e: ServiceError) -> RpcErrorView {
    match e.status {
        ServiceStatus::BadRequest | ServiceStatus::NotFound | ServiceStatus::MethodNotAllowed =>
            RpcErrorView::Protocol(e.message@),
        ServiceStatus::PayloadTooLarge | ServiceStatus::InternalError => RpcErrorView::Transport(
            e.message@,
        ),
        ServiceStatus::Success | ServiceStatus::Created => RpcErrorView::Unknown(e.message@),
    }
}

/// Maps a service error to an RPC error.
pub fn service_error_to_rpc_error(error: ServiceError) -> (r: RpcError)
    ensures
        r@ == spec_service_error_to_rpc(error),
{
    match error.status {
        ServiceStatus::BadRequest => RpcError::Protocol(String::from_str(error.message)),
        ServiceStatus::NotFound => RpcError::Protocol(String::from_str(error.message)),
        ServiceStatus::MethodNotAllowed => RpcError::Protocol(String::from_str(error.message)),
        ServiceStatus::PayloadTooLarge => RpcError::Transport(String::from_str(error.message)),
        ServiceStatus::InternalError => RpcError::Transport(String::from_str(error.message)),
        ServiceStatus::Success | ServiceStatus::Created => RpcError::Unknown(
            String::from_str(error.message),
        ),
    }
}

/// Result of an exchange given the handler's answer and the reply buffer.
pub open spec fn spec_finish_exchange(
    reply: Result<ServiceReply, ServiceError>,
    buffer: Seq<u8>,
) -> Result<Seq<u8>, RpcErrorView> {
    match reply {
        Err(e) => Err(spec_service_error_to_rpc(e)),
        Ok(r) => if r.status != ServiceStatus::Success {
            Err(RpcErrorView::Protocol("service handler returned non-OK status"@))
        } else if r.body_len > buffer.len() {
            Err(RpcErrorView::Protocol("service reply body length exceeds buffer"@))
        } else {
            Ok(buffer.take(r.body_len as int))
        },
    }
}

/// An exchange result taken by its view.
pub open spec fn exchange_view(r: Result<Vec<u8>, RpcError>) -> Result<Seq<u8>, RpcErrorView> {
    match r {
        Ok(v) => Ok(v@),
        Err(e) => Err(e@),
    }
}

/// Turns the handler's answer into the RPC reply bytes: a non-OK status or
/// a body longer than the buffer is a protocol error.
pub fn finish_exchange(reply: Result<ServiceReply, ServiceError>, buffer: &[u8]) -> (r: Result<
    Vec<u8>,
    RpcError,
>)
    ensures
        exchange_view(r) == spec_finish_exchange(reply, buffer@),
{
    let reply = match reply {
        Ok(r) => r,
        Err(e) => return Err(service_error_to_rpc_error(e)),
    };
    if reply.status != ServiceStatus::Success {
        return Err(RpcError::Protocol(String::from_str("service handler returned non-OK status")));
    }
    if reply.body_len > buffer.len() {
        return Err(
            RpcError::Protocol(String::from_str("service reply body length exceeds buffer")),
        );
    }
    Ok(crate::bytes::to_vec(&buffer[0..reply.body_len]))
}

/// How the Cashu RPC service answers a request before the mint sees it:
/// only POST is allowed, and only on [`CASHU_RPC_ROUTE`].
pub open spec fn spec_check_rpc_request(method: ServiceMethod, route: Seq<char>) -> Result<
    (),
    ServiceError,
> {
    if method != ServiceMethod::Post {
        Err(ServiceError { status: ServiceStatus::MethodNotAllowed, message: "cashu rpc requires POST" })
    } else if route != CASHU_RPC_ROUTE@ {
        Err(ServiceError { status: ServiceStatus::NotFound, message: "unknown route" })
    } else {
        Ok(())
    }
}

/// Checks method and route of a request for the Cashu RPC service.
pub fn check_rpc_request(method: ServiceMethod, route: &str) -> (r: Result<(), ServiceError>)
    ensures
        r == spec_check_rpc_request(method, route@),
{
    if method != ServiceMethod::Post {
        return Err(
            ServiceError { status: ServiceStatus::MethodNotAllowed, message: "cashu rpc requires POST" },
        );
    }
    if !str_eq(route, CASHU_RPC_ROUTE) {
        return Err(ServiceError { status: ServiceStatus::NotFound, message: "unknown route" });
    }
    Ok(())
}

/// The service error a failed mint RPC call is answered with: protocol
/// faults are bad requests, transport faults internal errors, anything
/// else a mint handler error.
pub fn rpc_error_to_service_error(error: &RpcError) -> (e: ServiceError)
    ensures
        e == (match error@ {
            RpcErrorView::Protocol(_) => ServiceError {
                status: ServiceStatus::BadRequest,
                message: "rpc protocol error",
            },
            RpcErrorView::Transport(_) => ServiceError {
                status: ServiceStatus::InternalError,
                message: "rpc transport error",
            },
            RpcErrorView::Unknown(_) => ServiceError {
                status: ServiceStatus::InternalError,
                message: "mint handler error",
            },
        }),
{
    match error {
        RpcError::Protocol(_) => ServiceError::bad_request("rpc protocol error"),
        RpcError::Transport(_) => ServiceError::internal_error("rpc transport error"),
        RpcError::Unknown(_) => ServiceError::internal_error("mint handler error"),
    }
}

/// Writes `body` at the start of `response` and describes it with
/// `status` and `content_type`; a buffer too short for it is an error.
fn write_body(
    body: &[u8],
    response: &mut [u8],
    status: ServiceStatus,
    content_type: ContentType,
) -> (r: Option<ServiceReply>)
    ensures
        final(response)@.len() == old(response)@.len(),
        body@.len() > old(response)@.len() ==> r is None && final(response)@ == old(response)@,
        body@.len() <= old(response)@.len() ==> r == Some(
            ServiceReply { status, content_type, body_len: body@.len() as usize },
        ) && final(response)@ == body@ + old(response)@.skip(body@.len() as int),
{
    if body.len() > response.len() {
        return None;
    }
    let ghost start = response@;
    let mut i: usize = 0;
    while i < body.len()
        invariant
            body@.len() <= start.len(),
            response@.len() == start.len(),
            i <= body@.len(),
            forall|j: int| 0 <= j < i ==> response@[j] == body@[j],
            forall|j: int| i <= j < start.len() ==> response@[j] == start[j],
        decreases body@.len() - i,
    {
        response[i] = body[i];
        i = i + 1;
    }
    assert(response@ =~= body@ + start.skip(body@.len() as int));
    Some(ServiceReply { status, content_type, body_len: body.len() })
}

/// The Cashu RPC service's answer once the mint has produced `rpc_response`:
/// the bytes go to the start of `response` as a binary OK reply, or the
/// reply is refused as too large for the buffer.
pub fn write_rpc_reply(rpc_response: &[u8], response: &mut [u8]) -> (r: Result<
    ServiceReply,
    ServiceError,
>)
    ensures
        final(response)@.len() == old(response)@.len(),
        rpc_response@.len() > old(response)@.len() ==> r == Err::<ServiceReply, ServiceError>(
            ServiceError {
                status: ServiceStatus::PayloadTooLarge,
                message: "response buffer too small",
            },
        ) && final(response)@ == old(response)@,
        rpc_response@.len() <= old(response)@.len() ==> r == Ok::<ServiceReply, ServiceError>(
            ServiceReply {
                status: ServiceStatus::Success,
                content_type: ContentType::Binary,
                body_len: rpc_response@.len() as usize,
            },
        ) && final(response)@ == rpc_response@ + old(response)@.skip(rpc_response@.len() as int),
{
    match write_body(rpc_response, response, ServiceStatus::Success, ContentType::Binary) {
        Some(reply) => Ok(reply),
        None => Err(
            ServiceError {
                status: ServiceStatus::PayloadTooLarge,
                message: "response buffer too small",
            },
        ),
    }
}

/// A responder reply buffer too short for the error text.
#[derive(Debug, Clone, Copy, PartialEq, Eq, Structural)]
pub enum ResponderError {
    BufferTooSmall,
}

/// Writes a service error as a text reply that keeps the error's status,
/// so the status survives transports whose own error carries no message.
pub fn write_error_reply(err: ServiceError, response: &mut [u8]) -> (r: Result<
    ServiceReply,
    ResponderError,
>)
    ensures
        final(response)@.len() == old(response)@.len(),
        err.message.spec_bytes().len() > old(response)@.len() ==> r == Err::<
            ServiceReply,
            ResponderError,
        >(ResponderError::BufferTooSmall) && final(response)@ == old(response)@,
        err.message.spec_bytes().len() <= old(response)@.len() ==> r == Ok::<
            ServiceReply,
            ResponderError,
        >(
            ServiceReply {
                status: err.status,
                content_type: ContentType::Text,
                body_len: err.message.spec_bytes().len() as usize,
            },
        ) && final(response)@ == err.message.spec_bytes() + old(response)@.skip(
            err.message.spec_bytes().len() as int,
        ),
{
    let message = err.message.as_bytes();
    match write_body(message, response, err.status, ContentType::Text) {
        Some(reply) => Ok(reply),
        None => Err(ResponderError::BufferTooSmall),
    }
}

/// The Cashu RPC request carrying `payload`: a POST to [`CASHU_RPC_ROUTE`].
pub fn rpc_request(payload: &[u8]) -> (req: ServiceRequest<'_>)
    ensures
        req.method == ServiceMethod::Post,
        req.route@ == CASHU_RPC_ROUTE@,
        req.payload@ == payload@,
{
    ServiceRequest { method: ServiceMethod::Post, route: CASHU_RPC_ROUTE, payload }
}

/// One call of the handler: the request it was given, the length of the
/// reply buffer it was lent, and its answer.
pub struct HandlerCall {
    pub method: ServiceMethod,
    pub route: Seq<char>,
    pub payload: Seq<u8>,
    pub buffer_len: nat,
    pub reply: Result<ServiceReply, ServiceError>,
}

/// RPC byte transport over an in-process [`ServiceHandler`].
pub struct ServiceHandlerTransport<H> {
    handler: H,
    response_buffer: Vec<u8>,
    calls: Ghost<Seq<HandlerCall>>,
}

impl<H> ServiceHandlerTransport<H> {
    /// The wrapped handler.
    pub closed spec fn handler_spec(&self) -> H {
        self.handler
    }

    /// Current contents of the reply buffer.
    pub closed spec fn buffer(&self) -> Seq<u8> {
        self.response_buffer@
    }

    /// Every call the transport has made on its handler, oldest first.
    pub closed spec fn calls(&self) -> Seq<HandlerCall> {
        self.calls@
    }

    /// Transport with a zeroed 16 KiB reply buffer.
    pub fn new(handler: H) -> (t: Self)
        ensures
            t.handler_spec() == handler,
            t.buffer() == Seq::new(DEFAULT_RESPONSE_CAPACITY as nat, |i: int| 0u8),
            t.calls() == Seq::<HandlerCall>::empty(),
    {
        Self::with_response_capacity(handler, DEFAULT_RESPONSE_CAPACITY)
    }

    /// Transport with a zeroed reply buffer of `capacity` bytes.
    pub fn with_response_capacity(handler: H, capacity: usize) -> (t: Self)
        ensures
            t.handler_spec() == handler,
            t.buffer() == Seq::new(capacity as nat, |i: int| 0u8),
            t.calls() == Seq::<HandlerCall>::empty(),
    {
        let mut buf: Vec<u8> = Vec::with_capacity(capacity);
        let mut i: usize = 0;
        while i < capacity
            invariant
                i <= capacity,
                buf@ == Seq::new(i as nat, |j: int| 0u8),
            decreases capacity - i,
        {
            buf.push(0u8);
            assert(buf@ =~= Seq::new((i + 1) as nat, |j: int| 0u8));
            i = i + 1;
        }
        Self { handler, response_buffer: buf, calls: Ghost(Seq::empty()) }
    }

    pub fn handler(&self) -> (h: &H)
        ensures
            *h == self.handler_spec(),
    {
        &self.handler
    }

    pub fn handler_mut(&mut self) -> (h: &mut H)
        ensures
            *h == old(self).handler_spec(),
            final(self).handler_spec() == *final(h),
            final(self).buffer() == old(self).buffer(),
            final(self).calls() == old(self).calls(),
    {
        &mut self.handler
    }
}

impl<H: ServiceHandler> ServiceHandlerTransport<H> {
    /// Sends `request` as a POST to [`CASHU_RPC_ROUTE`] and returns the reply
    /// body. The handler is called once, with that request and the whole
    /// reply buffer; the result is what [`finish_exchange`] makes of its
    /// answer and the buffer it filled.
    pub fn exchange(&mut self, request: &[u8]) -> (r: Result<Vec<u8>, RpcError>)
        ensures
            final(self).calls().len() == old(self).calls().len() + 1,
            final(self).calls().drop_last() == old(self).calls(),
            final(self).calls().last().method == ServiceMethod::Post,
            final(self).calls().last().route == CASHU_RPC_ROUTE@,
            final(self).calls().last().payload == request@,
            final(self).calls().last().buffer_len == old(self).buffer().len(),
            exchange_view(r) == spec_finish_exchange(
                final(self).calls().last().reply,
                final(self).buffer(),
            ),
    {
        let req = rpc_request(request);
        let ghost buffer_len = self.response_buffer@.len();
        let ghost before = self.calls@;
        let reply = self.handler.handle(req, self.response_buffer.as_mut_slice());
        self.calls = Ghost(
            self.calls@.push(
                HandlerCall {
                    method: req.method,
                    route: req.route@,
                    payload: req.payload@,
                    buffer_len,
                    reply,
                },
            ),
        );
        assert(self.calls@.drop_last() =~= before);
        let r = finish_exchange(reply, self.response_buffer.as_slice());
        r
    }
}

} // verus!
