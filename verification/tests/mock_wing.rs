//! A stand-in Wing console's set-up for exercising connections under error conditions.
//!
//! Tests here cannot open sockets, so the stand-in holds its configuration and state only;
//! a harness that serves connections is built from it where networking is available.

use std::collections::HashMap;
use std::io::Result as IoResult;
use std::sync::atomic::{AtomicBool, Ordering};
use std::sync::{Arc, Mutex};
use std::time::Duration;

/// The behaviour of the stand-in console.
#[derive(Debug, Clone)]
pub struct MockWingConfig {
    pub respond_to_discovery: bool,
    pub accept_connections: bool,
    pub simulate_connection_drops: bool,
    pub simulate_slow_responses: bool,
    pub response_delay: Duration,
    pub send_invalid_data: bool,
    pub simulate_hangs: bool,
    pub max_connections: usize,
    pub available_properties: HashMap<i32, f32>,
}

impl Default for MockWingConfig {
    fn default() -> Self {
        let mut properties = HashMap::new();
        properties.insert(950957506, -20.0);
        properties.insert(125312537, -20.0);
        properties.insert(-534056607, -20.0);
        Self {
            respond_to_discovery: true,
            accept_connections: true,
            simulate_connection_drops: false,
            simulate_slow_responses: false,
            response_delay: Duration::from_millis(10),
            send_invalid_data: false,
            simulate_hangs: false,
            max_connections: 10,
            available_properties: properties,
        }
    }
}

pub struct MockWingServer {
    config: Arc<Mutex<MockWingConfig>>,
    running: Arc<AtomicBool>,
    connection_count: Arc<Mutex<usize>>,
}

impl MockWingServer {
    pub fn new(config: MockWingConfig) -> IoResult<Self> {
        Ok(Self {
            config: Arc::new(Mutex::new(config)),
            running: Arc::new(AtomicBool::new(false)),
            connection_count: Arc::new(Mutex::new(0)),
        })
    }

    pub fn start(&mut self) -> IoResult<()> {
        self.running.store(true, Ordering::SeqCst);
        Ok(())
    }

    pub fn stop(&self) {
        self.running.store(false, Ordering::SeqCst);
    }

    pub fn is_running(&self) -> bool {
        self.running.load(Ordering::SeqCst)
    }

    pub fn update_config<F: FnOnce(&mut MockWingConfig)>(&self, f: F) {
        if let Ok(mut config) = self.config.lock() {
            f(&mut config);
        }
    }

    pub fn connection_count(&self) -> usize {
        self.connection_count.lock().map(|c| *c).unwrap_or(0)
    }
}

impl Drop for MockWingServer {
    fn drop(&mut self) {
        self.stop();
    }
}

/// A stand-in console set up for one kind of fault.
pub fn create_error_test_server(error_type: &str) -> IoResult<MockWingServer> {
    let config = match error_type {
        "connection_refused" => MockWingConfig { accept_connections: false, ..Default::default() },
        "discovery_timeout" => MockWingConfig { respond_to_discovery: false, ..Default::default() },
        "connection_drops" => MockWingConfig { simulate_connection_drops: true, ..Default::default() },
        "slow_responses" => MockWingConfig {
            simulate_slow_responses: true,
            response_delay: Duration::from_secs(2),
            ..Default::default()
        },
        "invalid_data" => MockWingConfig { send_invalid_data: true, ..Default::default() },
        "hangs" => MockWingConfig { simulate_hangs: true, ..Default::default() },
        "max_connections" => MockWingConfig { max_connections: 1, ..Default::default() },
        _ => MockWingConfig::default(),
    };
    MockWingServer::new(config)
}

#[test]
fn test_mock_server_creation() {
    let server = MockWingServer::new(MockWingConfig::default());
    assert!(server.is_ok());
}

#[test]
fn test_config_updates() {
    let server = MockWingServer::new(MockWingConfig::default()).unwrap();
    server.update_config(|config| {
        config.accept_connections = false;
    });
    let config_guard = server.config.lock().unwrap();
    assert!(!config_guard.accept_connections);
}

#[test]
fn test_error_server_creation() {
    let test_cases = [
        "connection_refused",
        "discovery_timeout",
        "connection_drops",
        "slow_responses",
        "invalid_data",
        "hangs",
        "max_connections",
    ];
    for error_type in &test_cases {
        let server = create_error_test_server(error_type);
        assert!(server.is_ok(), "Failed to create server for error type: {}", error_type);
    }
}

#[test]
fn error_servers_carry_their_fault() {
    let mut server = create_error_test_server("max_connections").unwrap();
    assert_eq!(server.config.lock().unwrap().max_connections, 1);
    server.start().unwrap();
    assert!(server.is_running());
    server.stop();
    assert!(!server.is_running());
    assert_eq!(server.connection_count(), 0);
    let slow = create_error_test_server("slow_responses").unwrap();
    assert_eq!(slow.config.lock().unwrap().response_delay, Duration::from_secs(2));
    let other = create_error_test_server("anything else").unwrap();
    assert_eq!(other.config.lock().unwrap().available_properties.len(), 3);
}
