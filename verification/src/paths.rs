//! Where the store lives: the well-known paths of the container and of the
//! flat-file directory, and the names of the temporary files beside them.

use vstd::prelude::*;
use vstd::string::StringExecFns;
use crate::store::Mode;

verus! {

/// The directory of the flat files, one per property.
pub const PERSIST_PROP_DIR: &'static str = "/data/property";

/// The container file. That it exists is what selects container mode.
pub const PERSIST_PROP: &'static str = "/data/property/persistent_properties";

/// What a temporary file is called in either layout: the template of a
/// unique name, whose last six letters the creation fills in. In container
/// mode it stands beside the container; in flat-file mode inside the
/// directory. Either way it is on the file system of what it will replace.
pub open spec fn temp_template_of(mode: Mode) -> Seq<char> {
    match mode {
        Mode::Container => PERSIST_PROP@ + ".XXXXXX"@,
        Mode::FlatFile => PERSIST_PROP_DIR@ + "/.prop.XXXXXX"@,
    }
}

/// The path of the flat file of the property `name`.
pub fn entry_path(name: &str) -> (path: String)
    ensures
        path@ == PERSIST_PROP_DIR@ + "/"@ + name@,
{
    let mut path = String::from_str(PERSIST_PROP_DIR);
    path.append("/");
    path.append(name);
    path
}

/// The template for the name of the temporary file of a write in `mode`.
pub fn temp_template(mode: Mode) -> (template: String)
    ensures
        template@ == temp_template_of(mode),
{
    match mode {
        Mode::Container => {
            let mut template = String::from_str(PERSIST_PROP);
            template.append(".XXXXXX");
            template
        },
        Mode::FlatFile => {
            let mut template = String::from_str(PERSIST_PROP_DIR);
            template.append("/.prop.XXXXXX");
            template
        },
    }
}

} // verus!
