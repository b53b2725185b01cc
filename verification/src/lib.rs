//! Core engine of a CI test-report toolkit: it discovers JUnit-style XML
//! report files, decodes them into a uniform suite/case model, derives
//! per-suite and aggregate summaries, classifies failures, and sorts the
//! collected suites.  Reading files, running worker pools and publishing
//! reports are left to thin unverified callers; everything that decides or
//! computes lives here, with contracts.

pub mod config;
pub mod duration;
pub mod gcs;
pub mod github;
pub mod html;
pub mod junit;
pub mod notify;
pub mod slack;
pub mod strutil;
pub mod xmlio;
