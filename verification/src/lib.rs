//! The logic of a live looper played from an 8×8 grid of pads.

pub mod agreement;
pub mod arrivals;
pub mod audio;
pub mod blocks;
pub mod clip;
pub mod capture;
pub mod chain;
pub mod click;
pub mod command;
pub mod config;
pub mod control;
pub mod crossing;
pub mod device;
pub mod double;
pub mod engine;
pub mod event;
pub mod gain;
pub mod gestures;
pub mod grid;
pub mod ids;
pub mod labels;
pub mod lane;
pub mod laws;
pub mod lights;
pub mod load;
pub mod looping;
pub mod mirror;
pub mod mixer;
pub mod pages;
pub mod paint;
pub mod pan;
pub mod passes;
pub mod process;
pub mod promises;
pub mod queue;
pub mod readers;
pub mod recycle;
pub mod reports;
pub mod screen;
pub mod session;
pub mod settings;
pub mod shared;
pub mod single;
pub mod slot;
pub mod snapshot;
pub mod startup;
pub mod storage;
pub mod surface;
pub mod takes;
pub mod text;
pub mod time;
pub mod transport;
