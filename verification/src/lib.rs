pub mod text;
pub mod models;
pub mod seqs;
pub mod structure;
pub mod normalize;
pub mod names;
pub mod tracking;
pub mod timing;
pub mod edits;
pub mod create;
pub mod store;
pub mod tracker;
pub mod categories;
pub mod listing;
pub mod paths;
pub mod report;
pub mod format;
pub mod html;
pub mod timeline;
pub mod stages;
pub mod printable;
pub mod migration;
pub mod capture;
pub mod sheets;
pub mod assembly;
pub mod analytics;
