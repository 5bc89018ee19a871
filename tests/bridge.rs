use mira::bridge::PythonInferenceClient;

#[test]
fn test_python_client_creation() {
    let client = PythonInferenceClient::new("http://localhost:8000".to_string(), 30);

    assert_eq!(client.service_url(), "http://localhost:8000");
    assert_eq!(client.timeout_seconds(), 30);
}

#[test]
fn endpoints_extend_the_base_address() {
    let client = PythonInferenceClient::new("http://localhost:8000".to_string(), 30);
    assert_eq!(client.endpoint("inference"), "http://localhost:8000/inference");
    assert_eq!(client.endpoint("health"), "http://localhost:8000/health");
}
