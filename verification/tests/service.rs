use micronuts::service::{
    check_rpc_request, rpc_error_to_service_error, write_rpc_reply, write_error_reply, ResponderError,
    finish_exchange, service_error_to_rpc_error, ContentType, RpcError, ServiceError,
    ServiceHandler, ServiceHandlerTransport, ServiceMethod, ServiceReply, ServiceRequest,
    ServiceStatus, CASHU_RPC_ROUTE, rpc_request,
};

/// Echoes the request body back, or refuses when the reply buffer is short.
struct Echo {
    seen: Vec<(ServiceMethod, String)>,
}

impl ServiceHandler for Echo {
    fn handle(
        &mut self,
        request: ServiceRequest<'_>,
        response: &mut [u8],
    ) -> Result<ServiceReply, ServiceError> {
        self.seen.push((request.method, request.route.to_string()));
        if request.payload.len() > response.len() {
            return Err(ServiceError {
                status: ServiceStatus::PayloadTooLarge,
                message: "reply too large",
            });
        }
        response[..request.payload.len()].copy_from_slice(request.payload);
        Ok(ServiceReply {
            status: ServiceStatus::Success,
            content_type: ContentType::Binary,
            body_len: request.payload.len(),
        })
    }
}

#[test]
fn exchange_posts_to_the_rpc_route_and_returns_the_body() {
    let mut t = ServiceHandlerTransport::new(Echo { seen: Vec::new() });
    assert_eq!(t.exchange(b"{\"method\":\"get_info\"}"), Ok(b"{\"method\":\"get_info\"}".to_vec()));
    assert_eq!(t.handler().seen, vec![(ServiceMethod::Post, CASHU_RPC_ROUTE.to_string())]);
    t.handler_mut().seen.clear();
    assert!(t.handler().seen.is_empty());
}

#[test]
fn small_reply_buffer_maps_to_transport_error() {
    let mut t = ServiceHandlerTransport::with_response_capacity(Echo { seen: Vec::new() }, 8);
    let err = t.exchange(b"0123456789").expect_err("small buffer should fail");
    assert!(matches!(err, RpcError::Transport(_)));
    assert_eq!(t.exchange(b"01234567"), Ok(b"01234567".to_vec()));
}

#[test]
fn service_errors_map_by_status() {
    let e = service_error_to_rpc_error(ServiceError::bad_request("bad"));
    assert_eq!(e, RpcError::Protocol("bad".to_string()));
    let e = service_error_to_rpc_error(ServiceError::internal_error("boom"));
    assert_eq!(e, RpcError::Transport("boom".to_string()));
    let e = service_error_to_rpc_error(ServiceError {
        status: ServiceStatus::NotFound,
        message: "nope",
    });
    assert_eq!(e, RpcError::Protocol("nope".to_string()));
    let e = service_error_to_rpc_error(ServiceError {
        status: ServiceStatus::Created,
        message: "odd",
    });
    assert_eq!(e, RpcError::Unknown("odd".to_string()));
}

#[test]
fn finish_exchange_checks_status_and_length() {
    let buf = [1u8, 2, 3, 4];
    let ok = ServiceReply { status: ServiceStatus::Success, content_type: ContentType::Json, body_len: 3 };
    assert_eq!(finish_exchange(Ok(ok), &buf), Ok(vec![1, 2, 3]));
    let created = ServiceReply { status: ServiceStatus::Created, ..ok };
    assert_eq!(
        finish_exchange(Ok(created), &buf),
        Err(RpcError::Protocol("service handler returned non-OK status".to_string()))
    );
    let long = ServiceReply { body_len: 5, ..ok };
    assert_eq!(
        finish_exchange(Ok(long), &buf),
        Err(RpcError::Protocol("service reply body length exceeds buffer".to_string()))
    );
    assert_eq!(
        finish_exchange(
            Err(ServiceError { status: ServiceStatus::MethodNotAllowed, message: "m" }),
            &buf
        ),
        Err(RpcError::Protocol("m".to_string()))
    );
}

#[test]
fn rpc_requests_need_post_on_the_rpc_route() {
    assert_eq!(check_rpc_request(ServiceMethod::Post, "/rpc/mint"), Ok(()));
    let e = check_rpc_request(ServiceMethod::Get, "/rpc/mint").unwrap_err();
    assert_eq!(e.status, ServiceStatus::MethodNotAllowed);
    assert_eq!(e.message, "cashu rpc requires POST");
    let e = check_rpc_request(ServiceMethod::Post, "/rpc/min").unwrap_err();
    assert_eq!(e.status, ServiceStatus::NotFound);
    assert_eq!(e.message, "unknown route");
    let e = check_rpc_request(ServiceMethod::Delete, "/other").unwrap_err();
    assert_eq!(e.status, ServiceStatus::MethodNotAllowed);
}

#[test]
fn rpc_errors_become_service_errors() {
    let e = rpc_error_to_service_error(&RpcError::Protocol("x".to_string()));
    assert_eq!((e.status, e.message), (ServiceStatus::BadRequest, "rpc protocol error"));
    let e = rpc_error_to_service_error(&RpcError::Transport("x".to_string()));
    assert_eq!((e.status, e.message), (ServiceStatus::InternalError, "rpc transport error"));
    let e = rpc_error_to_service_error(&RpcError::Unknown("x".to_string()));
    assert_eq!((e.status, e.message), (ServiceStatus::InternalError, "mint handler error"));
}

#[test]
fn rpc_reply_is_copied_or_refused() {
    let mut buf = [9u8; 4];
    let reply = write_rpc_reply(&[1, 2], &mut buf).unwrap();
    assert_eq!(reply.body_len, 2);
    assert_eq!(reply.status, ServiceStatus::Success);
    assert_eq!(reply.content_type, ContentType::Binary);
    assert_eq!(buf, [1, 2, 9, 9]);
    let err = write_rpc_reply(&[1, 2, 3, 4, 5], &mut buf).unwrap_err();
    assert_eq!(err.status, ServiceStatus::PayloadTooLarge);
    assert_eq!(err.message, "response buffer too small");
    assert_eq!(buf, [1, 2, 9, 9]);
}

#[test]
fn error_reply_keeps_status_as_text() {
    let mut buf = [0u8; 16];
    let reply = write_error_reply(ServiceError::internal_error("mint down"), &mut buf).unwrap();
    assert_eq!(reply.status, ServiceStatus::InternalError);
    assert_eq!(reply.content_type, ContentType::Text);
    assert_eq!(&buf[..reply.body_len], b"mint down");
    let mut small = [0u8; 3];
    assert_eq!(
        write_error_reply(ServiceError::bad_request("too long"), &mut small),
        Err(ResponderError::BufferTooSmall)
    );
    assert_eq!(small, [0, 0, 0]);
}

#[test]
fn rpc_request_is_a_post_to_the_rpc_route() {
    let req = rpc_request(b"{}");
    assert_eq!(req.method, ServiceMethod::Post);
    assert_eq!(req.route, CASHU_RPC_ROUTE);
    assert_eq!(req.payload, b"{}");
}
