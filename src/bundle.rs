use vstd::prelude::*;
use vstd::string::*;
use crate::classify::{
    LineKind, LineKindModel, line_kind, trim_start, trim_end, use_keyword, mod_keyword, classify,
    trimmed_start, trimmed_end,
};
use crate::tree::{
    SourceTree, FileModel, lines_view, find_file, find_module, flat_candidate, path_bound,
    lemma_path_bound, lemma_find_module, candidate_path,
};

verus! {

/// One line of the bundle: the opening of a module block, its closing, or text.
pub enum OutModel {
    Open(Seq<char>),
    Close,
    Text(Seq<char>),
}

/// One line of the bundle, before it is rendered as text.
#[derive(Debug, Clone, PartialEq, Eq)]
pub enum OutLine {
    Open(String),
    Close,
    Text(String),
}

impl View for OutLine {
    type V = OutModel;

    open spec fn view(&self) -> OutModel {
        match self {
            OutLine::Open(m) => OutModel::Open(m@),
            OutLine::Close => OutModel::Close,
            OutLine::Text(t) => OutModel::Text(t@),
        }
    }
}

/// Why a bundle could not be made.
#[derive(Debug, Clone, PartialEq, Eq)]
pub enum BundleError {
    /// No file backs a module or the library root; holds the path looked for
    /// (for a module, its flat file).
    FileNotFound(String),
}

/// What a run has produced so far: the bundle's lines, and the import paths of
/// the modules inlined (the suppression set).
pub struct BundleState {
    pub out: Seq<OutModel>,
    pub suppressed: Seq<Seq<char>>,
}

pub open spec fn state_of(out: Seq<OutLine>, sup: Seq<String>) -> BundleState {
    BundleState { out: out.map_values(|o: OutLine| o@), suppressed: sup.map_values(|s: String| s@) }
}

pub open spec fn tests_name() -> Seq<char> {
    seq!['t', 'e', 's', 't', 's']
}

/// The file stem of module `m` declared in the module at `stem`.
pub open spec fn child_stem(stem: Seq<char>, m: Seq<char>) -> Seq<char> {
    if stem.len() == 0 {
        m
    } else {
        stem + seq!['/'] + m
    }
}

/// The import path of module `m` declared in the module imported as `import`.
pub open spec fn child_import(import: Seq<char>, m: Seq<char>) -> Seq<char> {
    if import.len() == 0 {
        m
    } else {
        import + seq![':', ':'] + m
    }
}

/// How a passed-through line, already without trailing whitespace, is written:
/// when minifying, its leading whitespace goes too.
pub open spec fn passthrough(line: Seq<char>, minify: bool) -> OutModel {
    OutModel::Text(
        if minify {
            trim_start(line)
        } else {
            line
        },
    )
}

/// The local import that replaces a crate-qualified one.
pub open spec fn use_line(p: Seq<char>) -> Seq<char> {
    use_keyword() + p + seq![';']
}

pub open spec fn emit(st: BundleState, o: OutModel) -> BundleState {
    BundleState { out: st.out.push(o), suppressed: st.suppressed }
}

/// Expands `lines`, the body of the module at `stem` imported as `import`
/// (both empty for the library root), after `st`. Each `pub mod` other than
/// `tests` opens a block, marks its import path as inlined, expands its file and
/// closes the block; comments and lint attributes are dropped; every other line
/// is passed through. Fails with the flat file's path of the first module that
/// no file backs.
pub open spec fn expand_lines(
    files: Seq<FileModel>,
    name: Seq<char>,
    minify: bool,
    lines: Seq<Seq<char>>,
    stem: Seq<char>,
    import: Seq<char>,
    st: BundleState,
) -> Result<BundleState, Seq<char>>
    decreases path_bound(files) - stem.len(), lines.len(),
    via expand_lines_decreases
{
    if lines.len() == 0 {
        Ok(st)
    } else {
        let line = trim_end(lines[0]);
        let rest = lines.drop_first();
        match line_kind(line, name) {
            LineKindModel::Comment => expand_lines(files, name, minify, rest, stem, import, st),
            LineKindModel::LintAttribute => expand_lines(
                files,
                name,
                minify,
                rest,
                stem,
                import,
                st,
            ),
            LineKindModel::ModuleDeclaration(m) => {
                if m == tests_name() {
                    expand_lines(files, name, minify, rest, stem, import, st)
                } else {
                    let cs = child_stem(stem, m);
                    let ci = child_import(import, m);
                    match find_module(files, cs) {
                        None => Err(flat_candidate(cs)),
                        Some(i) => {
                            let st1 = BundleState {
                                out: st.out.push(OutModel::Open(m)),
                                suppressed: st.suppressed.push(ci),
                            };
                            match expand_lines(files, name, minify, files[i].lines, cs, ci, st1) {
                                Err(e) => Err(e),
                                Ok(st2) => expand_lines(
                                    files,
                                    name,
                                    minify,
                                    rest,
                                    stem,
                                    import,
                                    emit(st2, OutModel::Close),
                                ),
                            }
                        },
                    }
                }
            },
            _ => expand_lines(
                files,
                name,
                minify,
                rest,
                stem,
                import,
                emit(st, passthrough(line, minify)),
            ),
        }
    }
}

pub proof fn lemma_mod_name_not_empty(line: Seq<char>, name: Seq<char>)
    ensures
        line_kind(line, name) matches LineKindModel::ModuleDeclaration(m) ==> m.len() >= 1,
{
}

pub proof fn lemma_child_stem_grows(files: Seq<FileModel>, stem: Seq<char>, m: Seq<char>)
    requires
        m.len() >= 1,
    ensures
        child_stem(stem, m).len() > stem.len(),
        find_module(files, child_stem(stem, m)) matches Some(i) ==> 0 <= i < files.len()
            && child_stem(stem, m).len() + 7 <= files[i].path.len() && files[i].path.len()
            <= path_bound(files),
{
    lemma_path_bound(files);
    lemma_find_module(files, child_stem(stem, m));
}

#[via_fn]
proof fn expand_lines_decreases(
    files: Seq<FileModel>,
    name: Seq<char>,
    minify: bool,
    lines: Seq<Seq<char>>,
    stem: Seq<char>,
    import: Seq<char>,
    st: BundleState,
) {
    if lines.len() > 0 {
        lemma_mod_name_not_empty(trim_end(lines[0]), name);
        if let LineKindModel::ModuleDeclaration(m) = line_kind(trim_end(lines[0]), name) {
            lemma_child_stem_grows(files, stem, m);
        }
    }
}

/// The bundle of `entry` after `st`: the crate import is replaced by the
/// expansion of the library root at `root`, a crate-qualified `use` of an
/// inlined module is dropped and any other one is made local, comments and
/// lint attributes are dropped, and every other line is passed through.
pub open spec fn bundle_lines(
    files: Seq<FileModel>,
    name: Seq<char>,
    minify: bool,
    root: Seq<char>,
    entry: Seq<Seq<char>>,
    st: BundleState,
) -> Result<BundleState, Seq<char>>
    decreases entry.len(),
{
    if entry.len() == 0 {
        Ok(st)
    } else {
        let line = trim_end(entry[0]);
        let rest = entry.drop_first();
        match line_kind(line, name) {
            LineKindModel::Comment => bundle_lines(files, name, minify, root, rest, st),
            LineKindModel::LintAttribute => bundle_lines(files, name, minify, root, rest, st),
            LineKindModel::CrateImport => match find_file(files, root) {
                None => Err(root),
                Some(i) => match expand_lines(
                    files,
                    name,
                    minify,
                    files[i].lines,
                    Seq::empty(),
                    Seq::empty(),
                    st,
                ) {
                    Err(e) => Err(e),
                    Ok(st1) => bundle_lines(files, name, minify, root, rest, st1),
                },
            },
            LineKindModel::PlainUseOfCrate(p) => {
                if st.suppressed.contains(p) {
                    bundle_lines(files, name, minify, root, rest, st)
                } else {
                    bundle_lines(
                        files,
                        name,
                        minify,
                        root,
                        rest,
                        emit(st, OutModel::Text(use_line(p))),
                    )
                }
            },
            _ => bundle_lines(files, name, minify, root, rest, emit(st, passthrough(line, minify))),
        }
    }
}

pub open spec fn empty_state() -> BundleState {
    BundleState { out: Seq::empty(), suppressed: Seq::empty() }
}

/// The text of one bundle line, without its line break.
pub open spec fn render_line(o: OutModel) -> Seq<char> {
    match o {
        OutModel::Open(m) => mod_keyword() + m + seq![' ', '{'],
        OutModel::Close => seq!['}'],
        OutModel::Text(t) => t,
    }
}

/// The bundle as text: each line followed by a line break.
pub open spec fn render_all(out: Seq<OutModel>) -> Seq<char>
    decreases out.len(),
{
    if out.len() == 0 {
        Seq::empty()
    } else {
        render_all(out.drop_last()) + render_line(out.last()) + seq!['\n']
    }
}

/// Bundles an entry file with the library it imports.
pub struct Bundler {
    /// The file with the program's main logic.
    pub binrs_filename: String,
    /// Where the bundle is written.
    pub bundle_filename: String,
    /// The library root, as named in the source tree.
    pub librs_filename: String,
    /// The crate whose imports are inlined.
    pub name: String,
    /// Whether passed-through lines lose their leading whitespace.
    pub minify: bool,
}

fn child_stem_of(stem: &String, m: &String) -> (r: String)
    ensures
        r@ == child_stem(stem@, m@),
{
    if stem.unicode_len() == 0 {
        m.clone()
    } else {
        proof {
            reveal_strlit("/");
        }
        let mut r = stem.clone();
        r.append("/");
        r.append(m.as_str());
        assert(r@ =~= child_stem(stem@, m@));
        r
    }
}

fn child_import_of(import: &String, m: &String) -> (r: String)
    ensures
        r@ == child_import(import@, m@),
{
    if import.unicode_len() == 0 {
        m.clone()
    } else {
        proof {
            reveal_strlit("::");
        }
        let mut r = import.clone();
        r.append("::");
        r.append(m.as_str());
        assert(r@ =~= child_import(import@, m@));
        r
    }
}

/// Whether `p` is among the import paths in `sup`.
fn is_suppressed(sup: &Vec<String>, p: &String) -> (r: bool)
    ensures
        r == sup@.map_values(|s: String| s@).contains(p@),
{
    let ghost v = sup@.map_values(|s: String| s@);
    let mut i: usize = 0;
    while i < sup.len()
        invariant
            i <= sup@.len(),
            v == sup@.map_values(|s: String| s@),
            forall|k: int| 0 <= k < i ==> v[k] != p@,
        decreases sup@.len() - i,
    {
        if sup[i] == *p {
            assert(v[i as int] == p@);
            return true;
        }
        i = i + 1;
    }
    false
}

proof fn lemma_push_state(out: Seq<OutLine>, sup: Seq<String>, o: OutLine)
    ensures
        state_of(out.push(o), sup) == emit(state_of(out, sup), o@),
{
    assert(out.push(o).map_values(|o: OutLine| o@) =~= out.map_values(|o: OutLine| o@).push(o@));
}

proof fn lemma_push_both(out: Seq<OutLine>, sup: Seq<String>, o: OutLine, s: String)
    ensures
        state_of(out.push(o), sup.push(s)) == (BundleState {
            out: state_of(out, sup).out.push(o@),
            suppressed: state_of(out, sup).suppressed.push(s@),
        }),
{
    assert(out.push(o).map_values(|o: OutLine| o@) =~= out.map_values(|o: OutLine| o@).push(o@));
    assert(sup.push(s).map_values(|s: String| s@) =~= sup.map_values(|s: String| s@).push(s@));
}

proof fn lemma_lines_step(lines: Seq<String>, i: int)
    requires
        0 <= i < lines.len(),
    ensures
        lines_view(lines).skip(i).len() > 0,
        lines_view(lines).skip(i)[0] == lines[i]@,
        lines_view(lines).skip(i).drop_first() == lines_view(lines).skip(i + 1),
{
    assert(lines_view(lines).skip(i).drop_first() =~= lines_view(lines).skip(i + 1));
}

impl Bundler {
    /// A bundler for the entry file `binrs_filename`, writing to
    /// `bundle_filename`, with the library root at `src/lib.rs`, an empty crate
    /// name and no minification.
    pub fn new(binrs_filename: &str, bundle_filename: &str) -> (r: Bundler)
        ensures
            r.binrs_filename@ == binrs_filename@,
            r.bundle_filename@ == bundle_filename@,
            r.librs_filename@ == seq!['s', 'r', 'c', '/', 'l', 'i', 'b', '.', 'r', 's'],
            r.name@ == Seq::<char>::empty(),
            !r.minify,
    {
        proof {
            reveal_strlit("src/lib.rs");
        }
        let r = Bundler {
            binrs_filename: binrs_filename.to_owned(),
            bundle_filename: bundle_filename.to_owned(),
            librs_filename: String::from_str("src/lib.rs"),
            name: String::new(),
            minify: false,
        };
        assert(r.librs_filename@ =~= seq!['s', 'r', 'c', '/', 'l', 'i', 'b', '.', 'r', 's']);
        r
    }

    /// Turns minification on or off.
    pub fn minify_set(&mut self, enable: bool)
        ensures
            final(self).minify == enable,
            final(self).name == old(self).name,
            final(self).binrs_filename == old(self).binrs_filename,
            final(self).bundle_filename == old(self).bundle_filename,
            final(self).librs_filename == old(self).librs_filename,
    {
        self.minify = enable;
    }

    /// Sets the name of the crate whose imports are inlined.
    pub fn crate_name(&mut self, name: &str)
        ensures
            final(self).name@ == name@,
            final(self).minify == old(self).minify,
            final(self).binrs_filename == old(self).binrs_filename,
            final(self).bundle_filename == old(self).bundle_filename,
            final(self).librs_filename == old(self).librs_filename,
    {
        self.name = name.to_owned();
    }

    /// Appends the expansion of `lines`, the body of the module at `stem`
    /// imported as `import`, to `out`, adding inlined import paths to `sup`.
    fn expand_file(
        &self,
        tree: &SourceTree,
        lines: &Vec<String>,
        stem: &String,
        import: &String,
        out: &mut Vec<OutLine>,
        sup: &mut Vec<String>,
    ) -> (r: Result<(), BundleError>)
        requires
            stem@.len() <= path_bound(tree@),
        ensures
            match expand_lines(
                tree@,
                self.name@,
                self.minify,
                lines_view(lines@),
                stem@,
                import@,
                state_of(old(out)@, old(sup)@),
            ) {
                Ok(st) => r is Ok && state_of(final(out)@, final(sup)@) == st,
                Err(p) => r matches Err(BundleError::FileNotFound(q)) && q@ == p,
            },
        decreases path_bound(tree@) - stem@.len(),
    {
        let ghost files = tree@;
        let ghost lv = lines_view(lines@);
        let ghost target = expand_lines(
            files,
            self.name@,
            self.minify,
            lv,
            stem@,
            import@,
            state_of(out@, sup@),
        );
        let mut i: usize = 0;
        assert(lv.skip(0) =~= lv);
        while i < lines.len()
            invariant
                i <= lines@.len(),
                lv == lines_view(lines@),
                files == tree@,
                stem@.len() <= path_bound(files),
                target == expand_lines(
                    files,
                    self.name@,
                    self.minify,
                    lv,
                    stem@,
                    import@,
                    state_of(old(out)@, old(sup)@),
                ),
                expand_lines(
                    files,
                    self.name@,
                    self.minify,
                    lv.skip(i as int),
                    stem@,
                    import@,
                    state_of(out@, sup@),
                ) == target,
            decreases lines@.len() - i,
        {
            proof {
                lemma_lines_step(lines@, i as int);
            }
            let line = trimmed_end(lines[i].as_str());
            let kind = classify(line.as_str(), self.name.as_str());
            match kind {
                LineKind::Comment => {},
                LineKind::LintAttribute => {},
                LineKind::ModuleDeclaration(m) => {
                    proof {
                        reveal_strlit("tests");
                    }
                    let tests = String::from_str("tests");
                    assert(tests@ =~= tests_name());
                    let is_tests = m.eq(&tests);
                    if !is_tests {
                        let cs = child_stem_of(stem, &m);
                        let ci = child_import_of(import, &m);
                        proof {
                            lemma_mod_name_not_empty(line@, self.name@);
                            lemma_child_stem_grows(files, stem@, m@);
                        }
                        match tree.find_module(&cs) {
                            None => {
                                assert(expand_lines(
                                    files,
                                    self.name@,
                                    self.minify,
                                    lv.skip(i as int),
                                    stem@,
                                    import@,
                                    state_of(out@, sup@),
                                ) == Err::<BundleState, Seq<char>>(flat_candidate(cs@)));
                                return Err(BundleError::FileNotFound(candidate_path(&cs, false)));
                            },
                            Some(k) => {
                                let ghost st0 = state_of(out@, sup@);
                                let open = OutLine::Open(m);
                                proof {
                                    lemma_push_both(out@, sup@, open, ci);
                                }
                                out.push(open);
                                sup.push(ci.clone());
                                let res = self.expand_file(
                                    tree,
                                    &tree.files[k].lines,
                                    &cs,
                                    &ci,
                                    out,
                                    sup,
                                );
                                if res.is_err() {
                                    assert(expand_lines(
                                        files,
                                        self.name@,
                                        self.minify,
                                        lv.skip(i as int),
                                        stem@,
                                        import@,
                                        st0,
                                    ) == expand_lines(
                                        files,
                                        self.name@,
                                        self.minify,
                                        lines_view(tree.files@[k as int].lines@),
                                        cs@,
                                        ci@,
                                        BundleState {
                                            out: st0.out.push(OutModel::Open(m@)),
                                            suppressed: st0.suppressed.push(ci@),
                                        },
                                    ));
                                    return res;
                                }
                                proof {
                                    lemma_push_state(out@, sup@, OutLine::Close);
                                }
                                out.push(OutLine::Close);
                            },
                        }
                    }
                },
                _ => {
                    let t = if self.minify {
                        trimmed_start(line.as_str())
                    } else {
                        line.clone()
                    };
                    proof {
                        lemma_push_state(out@, sup@, OutLine::Text(t));
                    }
                    out.push(OutLine::Text(t));
                },
            }
            i = i + 1;
        }
        Ok(())
    }

    /// The bundle of the entry file `entry` against the files of `tree`, as
    /// lines: exactly what `bundle_lines` gives from an empty state, or the
    /// first file found missing.
    pub fn expand(&self, entry: &Vec<String>, tree: &SourceTree) -> (r: Result<
        Vec<OutLine>,
        BundleError,
    >)
        ensures
            match bundle_lines(
                tree@,
                self.name@,
                self.minify,
                self.librs_filename@,
                lines_view(entry@),
                empty_state(),
            ) {
                Ok(st) => r matches Ok(v) && v@.map_values(|o: OutLine| o@) == st.out,
                Err(p) => r matches Err(BundleError::FileNotFound(q)) && q@ == p,
            },
    {
        let mut out: Vec<OutLine> = Vec::new();
        let mut sup: Vec<String> = Vec::new();
        let ghost files = tree@;
        let ghost lv = lines_view(entry@);
        let ghost target = bundle_lines(
            files,
            self.name@,
            self.minify,
            self.librs_filename@,
            lv,
            empty_state(),
        );
        assert(state_of(out@, sup@) == empty_state()) by {
            assert(state_of(out@, sup@).out =~= Seq::<OutModel>::empty());
            assert(state_of(out@, sup@).suppressed =~= Seq::<Seq<char>>::empty());
        }
        assert(lv.skip(0) =~= lv);
        let mut i: usize = 0;
        while i < entry.len()
            invariant
                i <= entry@.len(),
                lv == lines_view(entry@),
                files == tree@,
                target == bundle_lines(
                    files,
                    self.name@,
                    self.minify,
                    self.librs_filename@,
                    lv,
                    empty_state(),
                ),
                bundle_lines(
                    files,
                    self.name@,
                    self.minify,
                    self.librs_filename@,
                    lv.skip(i as int),
                    state_of(out@, sup@),
                ) == target,
            decreases entry@.len() - i,
        {
            proof {
                lemma_lines_step(entry@, i as int);
            }
            let line = trimmed_end(entry[i].as_str());
            let kind = classify(line.as_str(), self.name.as_str());
            match kind {
                LineKind::Comment => {},
                LineKind::LintAttribute => {},
                LineKind::CrateImport => {
                    match tree.find(&self.librs_filename) {
                        None => {
                            return Err(BundleError::FileNotFound(self.librs_filename.clone()));
                        },
                        Some(k) => {
                            proof {
                                lemma_path_bound(files);
                            }
                            let ghost st0 = state_of(out@, sup@);
                            let empty = String::new();
                            let res = self.expand_file(
                                tree,
                                &tree.files[k].lines,
                                &empty,
                                &empty,
                                &mut out,
                                &mut sup,
                            );
                            if res.is_err() {
                                assert(bundle_lines(
                                    files,
                                    self.name@,
                                    self.minify,
                                    self.librs_filename@,
                                    lv.skip(i as int),
                                    st0,
                                ) == expand_lines(
                                    files,
                                    self.name@,
                                    self.minify,
                                    lines_view(tree.files@[k as int].lines@),
                                    empty@,
                                    empty@,
                                    st0,
                                ));
                                match res {
                                    Err(e) => {
                                        return Err(e);
                                    },
                                    Ok(_) => {},
                                }
                            }
                        },
                    }
                },
                LineKind::PlainUseOfCrate(p) => {
                    if !is_suppressed(&sup, &p) {
                        proof {
                            reveal_strlit("use ");
                            reveal_strlit(";");
                        }
                        let mut u = String::from_str("use ");
                        u.append(p.as_str());
                        u.append(";");
                        assert(u@ =~= use_line(p@));
                        proof {
                            lemma_push_state(out@, sup@, OutLine::Text(u));
                        }
                        out.push(OutLine::Text(u));
                    }
                },
                _ => {
                    let t = if self.minify {
                        trimmed_start(line.as_str())
                    } else {
                        line.clone()
                    };
                    proof {
                        lemma_push_state(out@, sup@, OutLine::Text(t));
                    }
                    out.push(OutLine::Text(t));
                },
            }
            i = i + 1;
        }
        Ok(out)
    }

    /// The bundle of `entry` against `tree`, as text: each line followed by a
    /// line break. The suppression set starts empty on every call, so equal
    /// inputs give equal bundles.
    pub fn run(&self, entry: &Vec<String>, tree: &SourceTree) -> (r: Result<String, BundleError>)
        ensures
            match bundle_lines(
                tree@,
                self.name@,
                self.minify,
                self.librs_filename@,
                lines_view(entry@),
                empty_state(),
            ) {
                Ok(st) => r matches Ok(text) && text@ == render_all(st.out),
                Err(p) => r matches Err(BundleError::FileNotFound(q)) && q@ == p,
            },
    {
        match self.expand(entry, tree) {
            Ok(v) => Ok(render(&v)),
            Err(e) => Err(e),
        }
    }
}

/// The bundle lines `out` as text: each followed by a line break.
pub fn render(out: &Vec<OutLine>) -> (r: String)
    ensures
        r@ == render_all(out@.map_values(|o: OutLine| o@)),
{
    let ghost v = out@.map_values(|o: OutLine| o@);
    let mut r = String::new();
    let mut i: usize = 0;
    assert(v.take(0) =~= Seq::<OutModel>::empty());
    while i < out.len()
        invariant
            i <= out@.len(),
            v == out@.map_values(|o: OutLine| o@),
            r@ == render_all(v.take(i as int)),
        decreases out@.len() - i,
    {
        let ghost before = r@;
        proof {
            reveal_strlit("pub mod ");
            reveal_strlit(" {");
            reveal_strlit("}");
            reveal_strlit("\n");
        }
        match &out[i] {
            OutLine::Open(m) => {
                r.append("pub mod ");
                r.append(m.as_str());
                r.append(" {");
            },
            OutLine::Close => {
                r.append("}");
            },
            OutLine::Text(t) => {
                r.append(t.as_str());
            },
        }
        r.append("\n");
        assert(v.take(i + 1).drop_last() =~= v.take(i as int));
        assert(r@ =~= before + render_line(v[i as int]) + seq!['\n']);
        i = i + 1;
    }
    assert(v.take(out@.len() as int) =~= v);
    r
}

} // verus!
