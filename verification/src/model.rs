//! Model-side shape contracts: windowed operators, layers, normalization, optimizer
//! selection, recurrent layers, module containers and the module interface.
pub mod convolution;
pub mod pooling;
pub mod nn;
pub mod normalization;
pub mod optim;
pub mod recurrent;
pub mod containers;
pub mod module;
