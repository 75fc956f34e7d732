use jute::remote::{
    HttpMethod, JupyterClient, RemoteKernel, derive_transport_url, interpret_api_version,
    interpret_create_kernel, interpret_get_kernel, interpret_kill_kernel, interpret_list_kernels,
};
use jute::Error;

const KERNEL_JSON: &str = r#"{"id":"abc","name":"python3","last_activity":"2024-01-01T00:00:00Z","execution_state":"idle","connections":0}"#;

#[test]
fn client_new_validates_url() {
    let client = JupyterClient::new("https://host", "tok").unwrap();
    assert_eq!(client.token, "tok");
    assert_eq!(client.server_url, "https://host/");

    let err = JupyterClient::new("not a url", "tok").unwrap_err();
    assert!(matches!(err, Error::Config(_)));

    let err = JupyterClient::new("https://host", "bad token").unwrap_err();
    assert!(matches!(err, Error::Config(_)));
}

#[test]
fn requests_carry_method_url_and_token() {
    let client = JupyterClient::new("https://host", "tok").unwrap();
    let q = client.api_version_request().unwrap();
    assert_eq!(q.method, HttpMethod::Get);
    assert_eq!(q.url, "https://host/api");
    assert_eq!(q.auth, "token tok");
    assert!(q.body.is_none());

    let q = client.get_kernel_request("abc").unwrap();
    assert_eq!(q.url, "https://host/api/kernels/abc");

    let q = client.create_kernel_request("python3").unwrap();
    assert_eq!(q.method, HttpMethod::Post);
    assert_eq!(q.url, "https://host/api/kernels");
    assert_eq!(q.body.as_deref(), Some(r#"{"name":"python3"}"#));

    let q = client.kill_kernel_request("abc").unwrap();
    assert_eq!(q.method, HttpMethod::Delete);
    assert_eq!(q.url, "https://host/api/kernels/abc");
}

#[test]
fn get_kernel_not_found_is_not_an_error() {
    assert!(matches!(interpret_get_kernel(404, ""), Ok(None)));

    let err = interpret_get_kernel(500, "boom").unwrap_err();
    match err {
        Error::Remote(status, wrapped) => {
            assert_eq!(status, 500);
            assert_eq!(wrapped, "boom");
        }
        other => panic!("wrong error variant: {:?}", other),
    }

    let err = interpret_get_kernel(403, "denied").unwrap_err();
    assert!(matches!(err, Error::Remote(403, _)));

    let found = interpret_get_kernel(200, KERNEL_JSON).unwrap().unwrap();
    assert_eq!(found.id, "abc");
    assert_eq!(found.execution_state, "idle");
}

#[test]
fn api_version_and_kill_interpretation() {
    let ver = interpret_api_version(200, r#"{"version":"2.3"}"#).unwrap();
    assert_eq!(ver, "2.3");
    assert!(matches!(
        interpret_api_version(500, "x"),
        Err(Error::Remote(500, _))
    ));

    assert!(interpret_kill_kernel(204, "").is_ok());
    assert!(matches!(
        interpret_kill_kernel(410, "gone"),
        Err(Error::Remote(410, _))
    ));
}

#[test]
fn list_kernels_keeps_server_order() {
    let body = format!(
        r#"[{},{{"id":"xyz","name":"deno","last_activity":"2024-01-02T00:00:00Z","execution_state":"busy","connections":2}}]"#,
        KERNEL_JSON
    );
    let ks = interpret_list_kernels(200, &body).unwrap();
    assert_eq!(ks.len(), 2);
    assert_eq!(ks[0].id, "abc");
    assert_eq!(ks[1].id, "xyz");
    assert_eq!(ks[1].connections, 2);
}

#[test]
fn bad_timestamp_is_rejected() {
    let body = r#"{"id":"abc","name":"python3","last_activity":"yesterday","execution_state":"idle","connections":0}"#;
    assert!(interpret_create_kernel(200, body).is_err());
}

#[test]
fn transport_scheme_mirrors_rest_scheme() {
    assert_eq!(
        derive_transport_url("https://host/api/kernels/abc/channels"),
        "wss://host/api/kernels/abc/channels"
    );
    assert_eq!(
        derive_transport_url("http://host/api/kernels/abc/channels"),
        "ws://host/api/kernels/abc/channels"
    );
    assert_eq!(derive_transport_url("ftp://host/x"), "ftp://host/x");
}

#[test]
fn start_derives_secure_transport_url() {
    let client = JupyterClient::new("https://host", "tok").unwrap();
    let kernel = RemoteKernel::start(&client, 201, KERNEL_JSON).unwrap();
    assert_eq!(kernel.id(), "abc");
    assert_eq!(kernel.conn().url, "wss://host/api/kernels/abc/channels");
    assert_eq!(kernel.conn().token, "tok");

    let insecure = JupyterClient::new("http://host", "tok").unwrap();
    let kernel = RemoteKernel::start(&insecure, 201, KERNEL_JSON).unwrap();
    assert_eq!(kernel.conn().url, "ws://host/api/kernels/abc/channels");
}

#[test]
fn start_surfaces_creation_failure() {
    let client = JupyterClient::new("https://host", "tok").unwrap();
    let err = RemoteKernel::start(&client, 500, "boom").unwrap_err();
    assert!(matches!(err, Error::Remote(500, _)));

    let kernel = RemoteKernel::start(&client, 201, KERNEL_JSON).unwrap();
    let q = kernel.kill().unwrap();
    assert_eq!(q.method, HttpMethod::Delete);
    assert_eq!(q.url, "https://host/api/kernels/abc");
    assert_eq!(q.auth, "token tok");
}
