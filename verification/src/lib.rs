pub mod content_ops;
pub mod diagnostics;
pub mod error;
pub mod lazy_deep_diagnostics;
pub mod lazy_diagnostics;
pub mod lazy_open;
pub mod lazy_pages;
pub mod lazy_pdf;
pub mod lazy_xref;
pub mod object_inspector;
pub mod object_tree;
pub mod pdf_edit;
pub mod objects;
pub mod page_index;
pub mod page_object_text;
pub mod pdf_model;
pub mod pdf_parser;
pub mod pdf_string;
pub mod report;
pub mod report_banner;
pub mod report_headings;
pub mod stream_decode;
pub mod stream_viewer;
pub mod summary;
pub mod text;
pub mod value_views;
