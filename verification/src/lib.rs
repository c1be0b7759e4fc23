//! Verified core of a KiCAD schematic toolkit.

pub mod common;
pub mod text;
pub mod pin;
pub mod schematic;
pub mod endpoint;
pub mod commands;
pub mod union_find;
pub mod semantic_outline;
pub mod outline;
pub mod config;
pub mod layout;
pub mod lookup;
pub mod search;
pub mod mcp;
pub mod project;
pub mod tools;
pub mod sexpr;
pub mod sexpr_write;
pub mod sexpr_roundtrip;
pub mod semantic_merge;
pub mod ordering;
pub mod semantic_components;
pub mod semantic_text;
pub mod outline_nets;
pub mod connectivity;
pub mod netlist;
pub mod references;
pub mod label_edit;
pub mod connect_plan;
pub mod component_edit;
pub mod wire_edit;
pub mod pin_geometry;
pub mod symbol_instance;
pub mod component_update;
pub mod symbol_info;
pub mod disconnect;
pub mod place;
pub mod sheet_reader;
pub mod sheet_points;
pub mod schematic_write;
pub mod schematic_items;
pub mod schematic_save;
pub mod outline_components;
pub mod schematic_read_back;
pub mod symbol_library;
pub mod symbol_place;
pub mod schematic_update;
pub mod schematic_header;
