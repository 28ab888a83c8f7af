//! PropFi: verified state machines of a real-estate tokenization protocol.
pub mod math;
pub mod table;
pub mod types;
pub mod oracle_adapter;
pub mod mortgage_pool;
pub mod fraction_vault;
pub mod rent_distributor;
pub mod governance;
pub mod payment_bridge;
pub mod compliance_registry;
pub mod property_registry;
