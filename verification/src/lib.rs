//! Network discovery and assessment core.
//!
//! The library models the scan-result data graph (`Scan` - `Host` -
//! `HostHistory` - per-scan child rows) over an in-memory relational store,
//! implements the persist sub-protocol and the temporal query layer over it,
//! parses the wire formats the scanner consumes (DHCP frames, nmap-style XML
//! events, `traceroute` and `ip route` output), builds the report rows for
//! the CSV and PDF back-ends, and decides the supervisor's single-flight and
//! timer behaviour.  I/O (running the probe tools, the capture loop, the
//! HTTP server, files) lives outside the library and hands in plain values.
//! The store lives in memory for the process's lifetime: a durable backend,
//! if one is wanted, mirrors it outside the library.

pub mod config;
pub mod dhcp;
pub mod entities;
pub mod laws;
pub mod local_net;
pub mod probe;
pub mod report;
pub mod route;
pub mod scan;
pub mod scanxml;
pub mod smb;
pub mod store;
pub mod supervisor;
pub mod system;
pub mod temporal;
pub mod textutil;
pub mod webview;
