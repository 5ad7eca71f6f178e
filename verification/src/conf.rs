//! The configuration shapes the service reads at startup. Loading and
//! parsing the file stay outside; these are the plain values handed in.

use vstd::prelude::*;

verus! {

pub struct Log {
    pub level: String,
}

pub struct Server {
    pub port: u16,
    pub cert_file: String,
    pub key_file: String,
    pub graceful_shutdown: usize,
}

pub struct ScyllaDB {
    pub nodes: Vec<String>,
    pub username: String,
    pub password: String,
}

pub struct Qdrant {
    pub url: String,
    pub api_key: String,
}

pub struct AzureAI {
    pub agent_endpoint: String,
    pub resource_name: String,
    pub api_key: String,
    pub api_version: String,
    pub embedding_model: String,
    pub chat_model: String,
    pub gpt4_chat_model: String,
}

pub struct OpenAI {
    pub agent_endpoint: String,
    pub api_key: String,
    pub org_id: String,
}

pub struct Agent {
    pub client_pem_file: String,
    pub client_root_cert_file: String,
}

pub struct AI {
    pub agent: Agent,
    pub openai: OpenAI,
    pub azureais: Vec<AzureAI>,
}

pub struct Redis {
    pub host: String,
    pub port: u16,
    pub username: String,
    pub password: String,
    pub max_connections: u16,
}

pub struct Conf {
    pub env: String,
    pub log: Log,
    pub server: Server,
    pub scylla: ScyllaDB,
    pub qdrant: Qdrant,
    pub redis: Redis,
    pub ai: AI,
}

} // verus!
