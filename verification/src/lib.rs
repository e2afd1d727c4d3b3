//! Control plane of a controller that rolls a declared image version across
//! a fleet of namespaces: the queue of per-namespace jobs with its debounce,
//! suppression windows and concurrency cap, and the plan that one job
//! follows.  Everything here is a function from plain values to plain values;
//! the caller owns the clock, the channels and the cluster.

pub mod action;
pub mod action_loop;
pub mod collections;
pub mod config;
pub mod crd;
pub mod crd_storage;
pub mod executor;
pub mod k8s_util;
pub mod reconcile;
pub mod text;
pub mod time;
pub mod watch_deployment;
pub mod watch_namespace;
pub mod watch_workflow;
pub mod when;
