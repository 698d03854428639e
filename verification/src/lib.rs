//! Question bank rules for the CNA self-evaluation process: audience
//! normalisation, workbook import, baseline comparison, instrument grouping
//! and provider review, each with a verified contract.

pub mod text;
pub mod audience;
pub mod domain;
pub mod sort;
pub mod columns;
pub mod importer;
pub mod marks;
pub mod workbook;
pub mod baseline;
pub mod bank;
pub mod collab;
pub mod validation;
pub mod export;
pub mod provider;
pub mod files;
pub mod xlsx;
pub mod xlsx_archive;
pub mod signin;
pub mod instruments;
