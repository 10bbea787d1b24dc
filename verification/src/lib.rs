//! NovaType, a pinyin input method: the engine's lexicon and segmentation,
//! dictionary sources, the user model's records, the daemon protocol's
//! framing, agent commands and LLM backends, and the platform-independent
//! core of the Windows text service.
pub mod agent;
pub mod dict;
pub mod engine;
pub mod llm;
pub mod model;
pub mod protocol;
pub mod text;
pub mod tsf;
