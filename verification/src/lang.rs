//! Programming languages, resolved against the configured language table.

use vstd::prelude::*;
use vstd::string::StringExecFns;

use crate::etc::{dup_lang_cfg, lang_cfg_eq, Cfg, LangCfg};

verus! {

/// A language resolved from the table: its name together with its compile
/// and run configuration.
#[derive(Debug, Clone)]
pub struct Lang {
    name: String,
    cfg: LangCfg,
}

/// Error for a language name that the table does not know.
#[derive(Debug, Clone)]
pub struct InvalidLangError {
    /// The unknown name.
    pub lang: String,
}

impl Lang {
    /// Looks `name` up in the table of `cfg`.  Succeeds exactly when the
    /// table has an entry of that name; the resolved configuration is that
    /// entry's.
    pub fn from_cfg(cfg: &Cfg, name: &str) -> (r: Result<Lang, InvalidLangError>)
        ensures
            match r {
                Ok(l) => l.spec_name() == name@ && exists|i: int|
                    0 <= i < cfg.lang@.len() && #[trigger] cfg.lang@[i].0@ == name@
                        && lang_cfg_eq(cfg.lang@[i].1, l.spec_cfg()),
                Err(e) => e.lang@ == name@ && forall|i: int|
                    0 <= i < cfg.lang@.len() ==> #[trigger] cfg.lang@[i].0@ != name@,
            },
    {
        match cfg.lang_cfg(name) {
            Some(c) => Ok(Lang { name: String::from_str(name), cfg: dup_lang_cfg(c) }),
            None => Err(InvalidLangError { lang: String::from_str(name) }),
        }
    }

    /// The language's name.
    pub closed spec fn spec_name(&self) -> Seq<char> {
        self.name@
    }

    /// The language's resolved configuration.
    pub closed spec fn spec_cfg(&self) -> LangCfg {
        self.cfg
    }

    /// Another handle to the same language.
    pub fn dup(&self) -> (r: Lang)
        ensures
            r.spec_name() == self.spec_name(),
            lang_cfg_eq(self.spec_cfg(), r.spec_cfg()),
    {
        Lang { name: self.name.clone(), cfg: dup_lang_cfg(&self.cfg) }
    }

    /// The language's name.
    pub fn name(&self) -> (r: &str)
        ensures
            r@ == self.spec_name(),
    {
        self.name.as_str()
    }

    /// The compiler command line.
    pub fn compile_cmd(&self) -> (r: &Vec<String>)
        ensures
            r == self.spec_cfg().compile_cmd,
    {
        &self.cfg.compile_cmd
    }

    /// The command line that runs the produced executable.
    pub fn run_cmd(&self) -> (r: &Vec<String>)
        ensures
            r == self.spec_cfg().run_cmd,
    {
        &self.cfg.run_cmd
    }

    /// The filename the source code is materialised under.
    pub fn source(&self) -> (r: &str)
        ensures
            r@ == self.spec_cfg().source@,
    {
        self.cfg.source.as_str()
    }

    /// The filename of the produced executable.
    pub fn exec_file(&self) -> (r: &str)
        ensures
            r@ == self.spec_cfg().exec_file@,
    {
        self.cfg.exec_file.as_str()
    }
}

} // verus!
