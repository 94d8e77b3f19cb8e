//! vnfs: the decision logic of a vectorized network filesystem client.
//!
//! Many file operations become few protocol requests. The functions here decide
//! what goes into a request, what a reply means and what follows from it; they
//! take and give plain values, and the caller does the I/O.

pub mod attrs;
pub mod batch;
pub mod client;
pub mod compound;
pub mod copyplan;
pub mod copyrun;
pub mod descio;
pub mod dirops;
pub mod error;
pub mod laws_attrs;
pub mod laws_batch;
pub mod laws_client;
pub mod laws_compound;
pub mod laws_copy;
pub mod laws_list;
pub mod laws_local;
pub mod laws_names;
pub mod laws_open;
pub mod laws_path;
pub mod laws_plan;
pub mod laws_position;
pub mod laws_report;
pub mod laws_smb;
pub mod laws_tc;
pub mod laws_transfer;
pub mod listing;
pub mod local;
pub mod many;
pub mod manyresolve;
pub mod mergedio;
pub mod metares;
pub mod nfsclient;
pub mod nfsvecfs;
pub mod openplan;
pub mod owner;
pub mod path;
pub mod pathclient;
pub mod pathio;
pub mod pathops;
pub mod pathres;
pub mod pathtext;
pub mod planner;
pub mod proto;
pub mod replies;
pub mod resolve;
pub mod runs;
pub mod session;
pub mod settle;
pub mod shape;
pub mod smb;
pub mod smbfs;
pub mod smbwire;
pub mod stats;
pub mod table;
pub mod tc;
pub mod text;
pub mod vecfs;
pub mod walk;
pub mod xdr;
