pub mod app_error;
pub mod domain_error;
pub mod io_errors;
pub mod service_errors;
