//! The logic of the iris screenshot and screen-recording utility.
pub mod action;
pub mod canvas;
pub mod card;
pub mod chip;
pub mod chrome;
pub mod cli;
pub mod codec;
pub mod command;
pub mod config;
pub mod daemon;
pub mod desk;
pub mod editor;
pub mod editor_image;
pub mod editor_input;
pub mod editor_keys;
pub mod editor_view;
pub mod figure;
pub mod fit;
pub mod flight;
pub mod gallery;
pub mod geom;
pub mod grid;
pub mod history;
pub mod home;
pub mod icons;
pub mod library;
pub mod listing;
pub mod loupe;
pub mod mosaic;
pub mod motion;
pub mod notice;
pub mod opening;
pub mod outline;
pub mod overlay;
pub mod overlay_events;
pub mod overlay_input;
pub mod overlay_keys;
pub mod overlay_view;
pub mod paths;
pub mod pin;
pub mod pipeline;
pub mod poise;
pub mod pose;
pub mod raster;
pub mod rebuild;
pub mod repaint;
pub mod screen;
pub mod settings;
pub mod settings_form;
pub mod settings_keys;
pub mod shapes;
pub mod socket;
pub mod stage;
pub mod text;
pub mod view;
pub mod wide;
