//! Error taxonomy of the reconciliation engine.
//!
//! Every error a reconciliation pass can surface is one of these variants.
//! The driver treats them as retryable by default, because the dominant cause
//! is eventual consistency (a parent not yet created, a credential not yet
//! provisioned); only static configuration defects are fatal.

use vstd::prelude::*;

verus! {

/// One error of a reconciliation pass.
#[derive(Debug)]
pub enum Error {
    /// The resource has no namespace, so no namespaced lookup can be made.
    NoNamespace,
    /// The credential secret an instance points at does not exist.
    NoCredentialSecret { namespace: String, secret_name: String },
    /// The parent referenced by a resource could not be resolved.
    ParentUnresolved { parent_name: String },
    /// The remote admin API answered with a non-success status.
    RemoteRejected { status: u16 },
    /// The remote call failed before any status was received.
    Transport,
    /// Deletion is blocked: these logical children still reference the resource.
    ResourceInUse { blocking_names: Vec<String> },
    /// A payload could not be serialized or violated the remote schema.
    Serialization,
    /// A resource kind was registered without its REST path builder.
    MissingPathBuilder,
}

/// Whether the driver may requeue after an error. Everything is retryable
/// except a static configuration defect, which no amount of retrying can
/// repair.
pub open spec fn retryable(e: Error) -> bool {
    !(e is MissingPathBuilder)
}

impl Error {
    /// Whether the driver should requeue the resource with backoff.
    pub fn is_retryable(&self) -> (r: bool)
        ensures
            r == retryable(*self),
    {
        !matches!(self, Error::MissingPathBuilder)
    }

    /// The human-readable text recorded in the resource's status.
    pub fn message(&self) -> (r: String)
        ensures
            r@.len() > 0,
    {
        match self {
            Error::NoNamespace => {
                proof {
                    reveal_strlit("resource has no namespace");
                }
                "resource has no namespace".to_owned()
            },
            Error::NoCredentialSecret { .. } => {
                proof {
                    reveal_strlit("credential secret not found");
                }
                "credential secret not found".to_owned()
            },
            Error::ParentUnresolved { .. } => {
                proof {
                    reveal_strlit("parent reference not resolved yet");
                }
                "parent reference not resolved yet".to_owned()
            },
            Error::RemoteRejected { .. } => {
                proof {
                    reveal_strlit("remote API rejected the request");
                }
                "remote API rejected the request".to_owned()
            },
            Error::Transport => {
                proof {
                    reveal_strlit("remote call failed in transport");
                }
                "remote call failed in transport".to_owned()
            },
            Error::ResourceInUse { .. } => {
                proof {
                    reveal_strlit("deletion blocked: logical children still reference the resource");
                }
                "deletion blocked: logical children still reference the resource".to_owned()
            },
            Error::Serialization => {
                proof {
                    reveal_strlit("payload serialization failed");
                }
                "payload serialization failed".to_owned()
            },
            Error::MissingPathBuilder => {
                proof {
                    reveal_strlit("resource kind registered without a path builder");
                }
                "resource kind registered without a path builder".to_owned()
            },
        }
    }
}

/// A namespaced operation's guard: the resource's namespace, or the
/// missing-namespace error.
pub fn require_namespace(namespace: &Option<String>) -> (r: Result<&String, Error>)
    ensures
        match namespace {
            Option::Some(ns) => r matches Ok(out) && out@ == ns@,
            Option::None => r matches Err(e) && e is NoNamespace,
        },
{
    match namespace {
        Option::Some(ns) => Ok(ns),
        Option::None => Err(Error::NoNamespace),
    }
}

} // verus!
