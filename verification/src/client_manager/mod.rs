pub mod client_manager;
