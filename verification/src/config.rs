//! Configuration of the application and of campaigns.

pub mod app_settings;
pub mod campaign_settings;
pub mod paths;
