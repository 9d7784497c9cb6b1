//! Per-user choices of the window.

use vstd::prelude::*;

verus! {

/// Which optional columns the Processes table shows.
#[derive(Debug, Clone, Copy, PartialEq, Eq, Structural)]
pub struct ProcessesColumns {
    pub description: bool,
    pub company: bool,
    pub user: bool,
    pub threads: bool,
    pub priority: bool,
    pub affinity: bool,
}

/// Every optional column.
pub open spec fn every_column() -> ProcessesColumns {
    ProcessesColumns {
        description: true,
        company: true,
        user: true,
        threads: true,
        priority: true,
        affinity: true,
    }
}

impl Default for ProcessesColumns {
    fn default() -> (r: Self)
        ensures
            r == every_column(),
    {
        ProcessesColumns {
            description: true,
            company: true,
            user: true,
            threads: true,
            priority: true,
            affinity: true,
        }
    }
}

/// The stored choices.
#[derive(Debug, Clone, Copy, PartialEq, Eq, Structural)]
pub struct TrayPrefs {
    pub schema_version: u32,
    pub processes_columns: ProcessesColumns,
}

/// The choices of a user who never made any.
pub open spec fn default_prefs() -> TrayPrefs {
    TrayPrefs { schema_version: 1, processes_columns: every_column() }
}

impl Default for TrayPrefs {
    fn default() -> (r: Self)
        ensures
            r == default_prefs(),
    {
        TrayPrefs { schema_version: 1, processes_columns: ProcessesColumns::default() }
    }
}

/// The columns that a preferences file names.
#[derive(Debug, Clone, Copy, PartialEq, Eq, Structural)]
pub struct StoredColumns {
    pub description: Option<bool>,
    pub company: Option<bool>,
    pub user: Option<bool>,
    pub threads: Option<bool>,
    pub priority: Option<bool>,
    pub affinity: Option<bool>,
}

/// What a preferences file says, as far as it could be read. Files of other
/// versions may lack any part.
#[derive(Debug, Clone, Copy, PartialEq, Eq, Structural)]
pub struct StoredPrefs {
    pub schema_version: Option<u32>,
    pub processes_columns: Option<StoredColumns>,
}

/// A stored value, or its default where the file does not name it.
pub open spec fn value_or<T>(stored: Option<T>, default: T) -> T {
    match stored {
        Some(x) => x,
        None => default,
    }
}

/// The columns that a file gives: those it names, and the default for each
/// other.
pub open spec fn restored_columns(stored: Option<StoredColumns>) -> ProcessesColumns {
    match stored {
        None => every_column(),
        Some(c) => ProcessesColumns {
            description: value_or(c.description, every_column().description),
            company: value_or(c.company, every_column().company),
            user: value_or(c.user, every_column().user),
            threads: value_or(c.threads, every_column().threads),
            priority: value_or(c.priority, every_column().priority),
            affinity: value_or(c.affinity, every_column().affinity),
        },
    }
}

/// The choices that a file gives: the defaults where there is no readable
/// file, and the default for each part that it does not name.
pub open spec fn restored(stored: Option<StoredPrefs>) -> TrayPrefs {
    match stored {
        None => default_prefs(),
        Some(s) => TrayPrefs {
            schema_version: value_or(s.schema_version, default_prefs().schema_version),
            processes_columns: restored_columns(s.processes_columns),
        },
    }
}

/// What a file holds of some choices: every part.
pub open spec fn stored_form(p: TrayPrefs) -> StoredPrefs {
    let c = p.processes_columns;
    StoredPrefs {
        schema_version: Some(p.schema_version),
        processes_columns: Some(
            StoredColumns {
                description: Some(c.description),
                company: Some(c.company),
                user: Some(c.user),
                threads: Some(c.threads),
                priority: Some(c.priority),
                affinity: Some(c.affinity),
            },
        ),
    }
}

/// Choices survive being stored and restored.
pub proof fn stored_choices_are_restored(p: TrayPrefs)
    ensures
        restored(Some(stored_form(p))) == p,
{
}

fn bool_or(stored: Option<bool>, default: bool) -> (r: bool)
    ensures
        r == value_or(stored, default),
{
    match stored {
        Some(x) => x,
        None => default,
    }
}

fn restore_columns(stored: Option<StoredColumns>) -> (r: ProcessesColumns)
    ensures
        r == restored_columns(stored),
{
    let every = ProcessesColumns::default();
    match stored {
        None => every,
        Some(c) => ProcessesColumns {
            description: bool_or(c.description, every.description),
            company: bool_or(c.company, every.company),
            user: bool_or(c.user, every.user),
            threads: bool_or(c.threads, every.threads),
            priority: bool_or(c.priority, every.priority),
            affinity: bool_or(c.affinity, every.affinity),
        },
    }
}

impl TrayPrefs {
    /// Restores the choices from a file.
    pub fn restore(stored: Option<StoredPrefs>) -> (r: TrayPrefs)
        ensures
            r == restored(stored),
    {
        match stored {
            None => TrayPrefs::default(),
            Some(s) => TrayPrefs {
                schema_version: match s.schema_version {
                    Some(v) => v,
                    None => TrayPrefs::default().schema_version,
                },
                processes_columns: restore_columns(s.processes_columns),
            },
        }
    }

    /// What is stored of these choices.
    pub fn stored(&self) -> (r: StoredPrefs)
        ensures
            r == stored_form(*self),
    {
        let c = self.processes_columns;
        StoredPrefs {
            schema_version: Some(self.schema_version),
            processes_columns: Some(
                StoredColumns {
                    description: Some(c.description),
                    company: Some(c.company),
                    user: Some(c.user),
                    threads: Some(c.threads),
                    priority: Some(c.priority),
                    affinity: Some(c.affinity),
                },
            ),
        }
    }
}

} // verus!
