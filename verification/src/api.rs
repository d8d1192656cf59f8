pub mod claims;
pub mod config;
pub mod file_repo;
pub mod file_repository;
pub mod file_request;
pub mod file_service;
pub mod generic;
pub mod jwt_request;
pub mod middleware;
pub mod oauth;
pub mod tier_request;
pub mod user;
pub mod user_request;
pub mod user_requests;
