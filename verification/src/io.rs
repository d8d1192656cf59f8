pub mod gpx_num;
pub mod gpx_xml;
pub mod io_errors;
pub mod track_loader;
