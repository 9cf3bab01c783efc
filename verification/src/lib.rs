pub mod text;
pub mod paths;
pub mod store;
pub mod json;
pub mod config;
pub mod categories;
pub mod labels;
pub mod places;
pub mod days;
pub mod calendar;
pub mod todo;
pub mod events;
pub mod progress;
pub mod sync;
pub mod cloud;
pub mod html;
pub mod canvas;
pub mod records;
pub mod documents;
pub mod web;
pub mod prompts;
pub mod answers;
pub mod queue;
pub mod download;
pub mod classify;
pub mod summaries;
pub mod search;
pub mod desktop;
pub mod classify_run;
