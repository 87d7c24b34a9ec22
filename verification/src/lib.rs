//! The deciding part of a download manager: naming, manifests, queues and
//! libraries as pure functions and state transitions with proved contracts.

pub mod atomicfile;
pub mod attributes;
pub mod backend;
pub mod clock;
pub mod cookies;
pub mod crypto;
pub mod dash;
pub mod dash_laws;
pub mod decimal;
pub mod detections;
pub mod disguise;
pub mod dns;
pub mod entry;
pub mod fetch_laws;
pub mod headers;
pub mod hls;
pub mod hls_laws;
pub mod ig_laws;
pub mod ig_library;
pub mod ig_run;
pub mod instagram;
pub mod instagram_laws;
pub mod instaloader;
pub mod iv;
pub mod jobs;
pub mod json;
pub mod library_laws;
pub mod listing;
pub mod manager;
pub mod mux;
pub mod naming;
pub mod naming_laws;
pub mod native_host;
pub mod net;
pub mod number;
pub mod page_laws;
pub mod pages;
pub mod panel;
pub mod paths;
pub mod preview;
pub mod progressive;
pub mod quality;
pub mod queue_laws;
pub mod queueing;
pub mod reading_laws;
pub mod record_laws;
pub mod registry;
pub mod scheduler;
pub mod sessions;
pub mod settings;
pub mod social;
pub mod sorting;
pub mod store;
pub mod source_laws;
pub mod stream_laws;
pub mod streams;
pub mod strmap;
pub mod template;
pub mod text;
pub mod text_laws;
pub mod textmap;
pub mod torrent;
pub mod torrent_laws;
pub mod torrent_run;
pub mod urls;
pub mod viewer;
pub mod wire;
pub mod xml;
pub mod xs_duration;
pub mod yt_library;
pub mod ytdlp;
pub mod ytdlp_info;
pub mod ytdlp_laws;
pub mod ytdlp_run;
