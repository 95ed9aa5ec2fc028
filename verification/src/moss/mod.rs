pub mod artifact_guard;
pub mod blackboard;
pub mod orchestrator;
pub mod synthesizer;
pub mod prompt;
