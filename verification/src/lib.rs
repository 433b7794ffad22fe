//! Flashcard library: CSV import with identity-preserving re-import, daily
//! study queues with limits and bonuses, review grading and undo, deck
//! statistics and the scheduler's training data, passphrase-encrypted
//! backups, and the integrity rules that every stored or restored library
//! satisfies.
use vstd::prelude::*;

pub mod model;
pub mod text;
pub mod clock;
pub mod ids;
pub mod library;
pub mod import;
pub mod csv_file;
pub mod learning;
pub mod storage;
pub mod analytics;
pub mod backup;
pub mod service;
pub mod laws;
pub mod validity;
pub mod import_validity;
pub mod integrity;
pub mod reimport;
pub mod rules;

pub use model::{
    Error, Result, invalid, Settings, Mapping, Deck, Schedule, Choice, Card, Review, Bonus, Snapshot,
    ParsedCsv, Change, CsvIssue, ImportPreview, Queue, SCHEMA_VERSION, ALGORITHM, RETENTION_DEFAULT,
};
pub use clock::study_day;
pub use library::{Library, append_unique, mapping};
pub use csv_file::{parse_csv, validate_csv_quotes};
pub use learning::{GradePlan, NextMemory};
pub use storage::{validate_snapshot, validate_parameters, validate_schedule, validate_timestamp, upgrade_snapshot};
pub use analytics::{
    ForecastDay, TrainingReview, TrainingItem, Analytics, Simulation, SimulationCard, CardMemory, CurveBasis,
    empty_forecast, forecast_days, MIN_SAMPLES,
};
pub use backup::{MAX_BACKUP_BYTES, encode_backup, decrypt_backup};
pub use service::{ImportCache, RestoreCandidate, OptimizationJob, JobStatus, take_restore};

verus! {
} // verus!
