//! Offline reading of UYAP `.udf` documents: the archive and the integrity
//! of its CMS signature over `content.xml`; the template's styled element
//! tree; the layout decisions, images and font maps of its PDF export; and
//! the decisions of the viewer's session and of its update check.

pub mod text;
pub mod decimal;
pub mod attrs;

pub mod cms_der;
pub mod crypto;
pub mod signed_data;
pub mod signature;

pub mod zip_entries;
pub mod directory;
pub mod udf;

pub mod xml;
pub mod model;

pub mod layout;
pub mod images;
pub mod cmap;

pub mod session;
pub mod update;
