pub mod rpc;
