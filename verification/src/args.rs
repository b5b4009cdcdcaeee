use vstd::prelude::*;

verus! {

/// How the book project's metadata is obtained.
#[derive(Debug, Clone, Copy, PartialEq, Eq, Structural)]
pub enum MetaSource {
    /// Strictly retrieve the metadata by label queries against the summary
    /// document.
    Strict,
    /// Infer the metadata from the outline of the main file.
    Outline,
}

impl Default for MetaSource {
    fn default() -> (r: MetaSource)
        ensures
            r is Outline,
    {
        MetaSource::Outline
    }
}

/// How a document is rendered.
#[derive(Debug, Clone, Copy, PartialEq, Eq, Structural)]
pub enum RenderMode {
    /// Dynamically render as a paged document.
    DynPaged,
    /// Statically render what can be, leaving frames dynamic.
    StaticHtmlDynPaged,
    /// Statically render the whole document.
    StaticHtml,
}

impl Default for RenderMode {
    fn default() -> (r: RenderMode)
        ensures
            r is DynPaged,
    {
        RenderMode::DynPaged
    }
}

/// Compile options shared by the commands.
#[derive(Debug, Clone)]
pub struct CompileArgs {
    /// The directory holding the book's summary document.
    pub dir: String,
    /// How the project's metadata is obtained.
    pub meta_source: MetaSource,
    /// How documents are rendered.
    pub mode: RenderMode,
    /// Root directory of the workspace (superseded by `root`).
    pub workspace: String,
    /// The project root for absolute paths in source files.
    pub root: Option<String>,
    /// Directories searched recursively for fonts.
    pub font_paths: Vec<String>,
    /// Output directory; empty means the book's own build setting or `dist`.
    pub dest_dir: String,
    /// Path prefix to the site root in rendered pages.
    pub path_to_root: String,
    /// Host allowlist pattern for embedded sources.
    pub allowed_url_source: Option<String>,
}

impl Default for CompileArgs {
    fn default() -> (r: CompileArgs)
        ensures
            r.dir@ == Seq::<char>::empty(),
            r.meta_source is Outline,
            r.mode is DynPaged,
            r.workspace@ == Seq::<char>::empty(),
            r.root is None,
            r.font_paths@ == Seq::<String>::empty(),
            r.dest_dir@ == Seq::<char>::empty(),
            r.path_to_root@ == Seq::<char>::empty(),
            r.allowed_url_source is None,
    {
        CompileArgs {
            dir: String::new(),
            meta_source: MetaSource::Outline,
            mode: RenderMode::DynPaged,
            workspace: String::new(),
            root: None,
            font_paths: Vec::new(),
            dest_dir: String::new(),
            path_to_root: String::new(),
            allowed_url_source: None,
        }
    }
}

impl CompileArgs {
    /// Moves the newer `root` option onto the older `workspace` field, so
    /// the rest of the build reads one place.
    pub fn compat(&mut self)
        ensures
            final(self).root is None,
            final(self).workspace@ == (match old(self).root {
                Some(r) => r@,
                None => old(self).workspace@,
            }),
            final(self).dir == old(self).dir,
            final(self).meta_source == old(self).meta_source,
            final(self).mode == old(self).mode,
            final(self).font_paths == old(self).font_paths,
            final(self).dest_dir == old(self).dest_dir,
            final(self).path_to_root == old(self).path_to_root,
            final(self).allowed_url_source == old(self).allowed_url_source,
    {
        let taken = match &self.root {
            Some(r) => Some(r.clone()),
            None => None,
        };
        match taken {
            Some(r) => {
                self.workspace = r;
                self.root = None;
            },
            None => {
                self.root = None;
            },
        }
    }
}

/// Options of the project-scaffolding command.
#[derive(Debug, Clone)]
pub struct InitArgs {
    pub compile: CompileArgs,
}

/// Options of the one-shot build command.
#[derive(Debug, Clone)]
pub struct BuildArgs {
    pub compile: CompileArgs,
}

/// Options of the development server command.
#[derive(Debug, Clone)]
pub struct ServeArgs {
    pub compile: CompileArgs,
    /// Do not build the book before serving.
    pub no_build: bool,
    /// Listen address.
    pub addr: String,
}

/// The command line as a whole.
#[derive(Debug)]
pub struct Opts {
    /// Print the version.
    pub version: bool,
    /// Print verbose logs.
    pub verbose: bool,
    pub sub: Option<Subcommands>,
}

#[derive(Debug)]
pub enum Subcommands {
    Init(InitArgs),
    Build(BuildArgs),
    Serve(ServeArgs),
}

} // verus!
