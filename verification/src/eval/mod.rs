pub mod scenario;
pub mod metrics;
pub mod agent_runner;
pub mod defaults;

pub use scenario::{EvalDataset, EvalScenario};
pub use agent_runner::StubAgentRunner;
