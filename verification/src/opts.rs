//! The data carried by each command of the CLI surface.  Argument
//! parsing itself is I/O-side work and stays with the binary.

use vstd::prelude::*;

verus! {

#[derive(Debug)]
pub enum CliOpts {
    Init(InitOpts),
    Build(BuildOpts),
    Page(PageOpts),
    Serve(ServeOpts),
}

#[derive(Debug)]
pub struct InitOpts {
    pub title: String,
}

#[derive(Debug)]
pub struct BuildOpts {
    pub guide: String,
}

#[derive(Debug)]
pub struct PageOpts {
    pub subcmd: PageSubcmd,
}

#[derive(Debug)]
pub enum PageSubcmd {
    New(PageNewOpts),
    Save(PageSaveOpts),
}

#[derive(Debug)]
pub struct PageNewOpts {
    pub title: String,
}

#[derive(Debug)]
pub struct PageSaveOpts {
    pub message: Option<String>,
}

#[derive(Debug)]
pub struct ServeOpts {}

} // verus!
