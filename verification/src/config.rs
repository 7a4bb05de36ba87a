//! The build configuration: entry points, output directory, flags, the
//! external-module list and the alias table, with the pure resolution
//! helpers the bundler uses.  Loading the configuration from a file is
//! the surrounding program's business.

use vstd::prelude::*;

use crate::parser::str_views;
use crate::scan::concat_chars;
use crate::text::{from_chars, starts_with_at, str_eq, to_chars};
use crate::value::{lemma_map_of_absent, lemma_map_of_get, map_of};

verus! {

/// The build configuration.  Aliases are an ordered binding list, a later
/// binding of the same name overriding an earlier one.
#[derive(Debug)]
pub struct JenPackConfig {
    pub entry: Vec<String>,
    pub outdir: String,
    pub minify: bool,
    pub sourcemap: bool,
    pub watch: bool,
    pub verbose: bool,
    pub externals: Vec<String>,
    pub aliases: Vec<(String, String)>,
}

impl Default for JenPackConfig {
    /// The defaults: one entry `src/index.ts`, output to `dist`, source
    /// maps on, everything else off and empty.
    fn default() -> (r: JenPackConfig)
        ensures
            r.entry@.len() == 1 && r.entry@[0]@ == "src/index.ts"@,
            r.outdir@ == "dist"@,
            !r.minify,
            r.sourcemap,
            !r.watch,
            !r.verbose,
            r.externals@.len() == 0,
            r.aliases@.len() == 0,
    {
        let mut entry: Vec<String> = Vec::new();
        entry.push(String::from_str("src/index.ts"));
        JenPackConfig {
            entry,
            outdir: String::from_str("dist"),
            minify: false,
            sourcemap: true,
            watch: false,
            verbose: false,
            externals: Vec::new(),
            aliases: Vec::new(),
        }
    }
}

impl JenPackConfig {
    /// The alias table as a mapping.
    pub open spec fn alias_map(&self) -> Map<Seq<char>, Seq<char>> {
        map_of(self.aliases@)
    }

    /// Resolves `name` through the alias table, or returns it unchanged
    /// when it is not bound.
    pub fn resolve_alias(&self, name: &str) -> (r: String)
        ensures
            r@ == if self.alias_map().contains_key(name@) {
                self.alias_map()[name@]
            } else {
                name@
            },
    {
        let n: usize = self.aliases.len();
        let mut t: usize = n;
        while t > 0
            invariant
                t <= n,
                n == self.aliases@.len(),
                forall|u: int| t <= u < n ==> self.aliases@[u].0@ != name@,
            decreases t,
        {
            t -= 1;
            if str_eq(self.aliases[t].0.as_str(), name) {
                proof {
                    lemma_map_of_get(self.aliases@, name@, t as int);
                }
                return self.aliases[t].1.clone();
            }
        }
        proof {
            lemma_map_of_absent(self.aliases@, name@);
        }
        String::from_str(name)
    }

    /// Whether `module` is external: some external prefix begins it.
    pub fn is_external(&self, module: &str) -> (r: bool)
        ensures
            r == exists|i: int|
                0 <= i < self.externals@.len() && starts_with_at(
                    module@,
                    0,
                    self.externals@[i]@,
                ),
    {
        let cs = to_chars(module);
        let n: usize = self.externals.len();
        let mut t: usize = 0;
        while t < n
            invariant
                t <= n,
                n == self.externals@.len(),
                cs@ == module@,
                forall|u: int| 0 <= u < t ==> !starts_with_at(module@, 0, self.externals@[u]@),
            decreases n - t,
        {
            if crate::text::chars_start_with(&cs, 0, self.externals[t].as_str()) {
                return true;
            }
            t += 1;
        }
        false
    }

    /// The ordered module paths the bundler probes for an import: the
    /// alias-resolved name as given, with each script extension appended,
    /// then as a directory with each index file.
    pub fn module_candidates(&self, module: &str) -> (r: Vec<String>)
        ensures
            ({
                let base = if self.alias_map().contains_key(module@) {
                    self.alias_map()[module@]
                } else {
                    module@
                };
                str_views(r@) == seq![
                    base,
                    base + ".ts"@,
                    base + ".tsx"@,
                    base + ".js"@,
                    base + ".jsx"@,
                    base + ".json"@,
                    base + "/index.ts"@,
                    base + "/index.tsx"@,
                    base + "/index.js"@,
                    base + "/index.jsx"@,
                ]
            }),
    {
        let resolved = self.resolve_alias(module);
        let base = to_chars(resolved.as_str());
        let mut out: Vec<String> = Vec::new();
        out.push(resolved);
        out.push(from_chars(&concat_chars(&base, ".ts")));
        out.push(from_chars(&concat_chars(&base, ".tsx")));
        out.push(from_chars(&concat_chars(&base, ".js")));
        out.push(from_chars(&concat_chars(&base, ".jsx")));
        out.push(from_chars(&concat_chars(&base, ".json")));
        out.push(from_chars(&concat_chars(&base, "/index.ts")));
        out.push(from_chars(&concat_chars(&base, "/index.tsx")));
        out.push(from_chars(&concat_chars(&base, "/index.js")));
        out.push(from_chars(&concat_chars(&base, "/index.jsx")));
        proof {
            assert(str_views(out@) =~= seq![
                base@,
                base@ + ".ts"@,
                base@ + ".tsx"@,
                base@ + ".js"@,
                base@ + ".jsx"@,
                base@ + ".json"@,
                base@ + "/index.ts"@,
                base@ + "/index.tsx"@,
                base@ + "/index.js"@,
                base@ + "/index.jsx"@,
            ]);
        }
        out
    }
}

} // verus!
