use vstd::prelude::*;
use crate::classify::{LineKindModel, line_kind, trim_start, trim_end, trim, is_space, skip_space_from, lemma_trim_end_idempotent, lemma_trim_end_of_solid};
use crate::tree::{FileModel, find_file, find_from, find_module, flat_candidate};
use crate::bundle::{
    OutModel, BundleState, expand_lines, bundle_lines, emit, passthrough, use_line, tests_name,
    child_stem, child_import, empty_state, lemma_mod_name_not_empty, lemma_child_stem_grows,
};

verus! {

/// The nesting depth after scanning `out` from the start, or `None` if some
/// block is closed that was never opened.
pub open spec fn depth(out: Seq<OutModel>) -> Option<int>
    decreases out.len(),
{
    if out.len() == 0 {
        Some(0)
    } else {
        match depth(out.drop_last()) {
            None => None,
            Some(d) => match out.last() {
                OutModel::Open(_) => Some(d + 1),
                OutModel::Close => if d > 0 {
                    Some(d - 1)
                } else {
                    None
                },
                OutModel::Text(_) => Some(d),
            },
        }
    }
}

proof fn lemma_depth_push(s: Seq<OutModel>, o: OutModel)
    ensures
        depth(s.push(o)) == match depth(s) {
            None => None,
            Some(d) => match o {
                OutModel::Open(_) => Some(d + 1),
                OutModel::Close => if d > 0 {
                    Some(d - 1)
                } else {
                    None
                },
                OutModel::Text(_) => Some(d),
            },
        },
{
    assert(s.push(o).drop_last() =~= s);
}

/// Expanding a module body appends only balanced blocks: the depth at its end
/// is the depth at its start, and it never closes a block opened before it.
pub proof fn lemma_expand_balanced(
    files: Seq<FileModel>,
    name: Seq<char>,
    minify: bool,
    lines: Seq<Seq<char>>,
    stem: Seq<char>,
    import: Seq<char>,
    st: BundleState,
    d: int,
)
    requires
        depth(st.out) == Some(d),
        d >= 0,
    ensures
        expand_lines(files, name, minify, lines, stem, import, st) matches Ok(st2) ==> depth(
            st2.out,
        ) == Some(d),
    decreases crate::tree::path_bound(files) - stem.len(), lines.len(),
{
    if lines.len() > 0 {
        let line = trim_end(lines[0]);
        let rest = lines.drop_first();
        lemma_mod_name_not_empty(line, name);
        match line_kind(line, name) {
            LineKindModel::Comment => {
                lemma_expand_balanced(files, name, minify, rest, stem, import, st, d);
            },
            LineKindModel::LintAttribute => {
                lemma_expand_balanced(files, name, minify, rest, stem, import, st, d);
            },
            LineKindModel::ModuleDeclaration(m) => {
                if m == tests_name() {
                    lemma_expand_balanced(files, name, minify, rest, stem, import, st, d);
                } else {
                    let cs = child_stem(stem, m);
                    let ci = child_import(import, m);
                    lemma_child_stem_grows(files, stem, m);
                    if let Some(i) = find_module(files, cs) {
                        let st1 = BundleState {
                            out: st.out.push(OutModel::Open(m)),
                            suppressed: st.suppressed.push(ci),
                        };
                        lemma_depth_push(st.out, OutModel::Open(m));
                        lemma_expand_balanced(files, name, minify, files[i].lines, cs, ci, st1, d + 1);
                        if let Ok(st2) = expand_lines(files, name, minify, files[i].lines, cs, ci, st1) {
                            lemma_depth_push(st2.out, OutModel::Close);
                            lemma_expand_balanced(
                                files,
                                name,
                                minify,
                                rest,
                                stem,
                                import,
                                emit(st2, OutModel::Close),
                                d,
                            );
                        }
                    }
                }
            },
            _ => {
                lemma_depth_push(st.out, passthrough(line, minify));
                lemma_expand_balanced(
                    files,
                    name,
                    minify,
                    rest,
                    stem,
                    import,
                    emit(st, passthrough(line, minify)),
                    d,
                );
            },
        }
    }
}

proof fn lemma_bundle_depth(
    files: Seq<FileModel>,
    name: Seq<char>,
    minify: bool,
    root: Seq<char>,
    entry: Seq<Seq<char>>,
    st: BundleState,
    d: int,
)
    requires
        depth(st.out) == Some(d),
        d >= 0,
    ensures
        bundle_lines(files, name, minify, root, entry, st) matches Ok(st2) ==> depth(st2.out)
            == Some(d),
    decreases entry.len(),
{
    if entry.len() > 0 {
        let line = trim_end(entry[0]);
        let rest = entry.drop_first();
        match line_kind(line, name) {
            LineKindModel::Comment => {
                lemma_bundle_depth(files, name, minify, root, rest, st, d);
            },
            LineKindModel::LintAttribute => {
                lemma_bundle_depth(files, name, minify, root, rest, st, d);
            },
            LineKindModel::CrateImport => {
                if let Some(i) = find_file(files, root) {
                    let lib = files[i].lines;
                    lemma_expand_balanced(
                        files,
                        name,
                        minify,
                        lib,
                        Seq::empty(),
                        Seq::empty(),
                        st,
                        d,
                    );
                    if let Ok(st1) = expand_lines(
                        files,
                        name,
                        minify,
                        lib,
                        Seq::empty(),
                        Seq::empty(),
                        st,
                    ) {
                        lemma_bundle_depth(files, name, minify, root, rest, st1, d);
                    }
                }
            },
            LineKindModel::PlainUseOfCrate(p) => {
                if st.suppressed.contains(p) {
                    lemma_bundle_depth(files, name, minify, root, rest, st, d);
                } else {
                    lemma_depth_push(st.out, OutModel::Text(use_line(p)));
                    lemma_bundle_depth(
                        files,
                        name,
                        minify,
                        root,
                        rest,
                        emit(st, OutModel::Text(use_line(p))),
                        d,
                    );
                }
            },
            _ => {
                lemma_depth_push(st.out, passthrough(line, minify));
                lemma_bundle_depth(
                    files,
                    name,
                    minify,
                    root,
                    rest,
                    emit(st, passthrough(line, minify)),
                    d,
                );
            },
        }
    }
}

/// Nesting balance: in every bundle, scanned from the start, no block is
/// closed that is not open, and every block opened is closed by the end.
pub proof fn lemma_bundle_balanced(
    files: Seq<FileModel>,
    name: Seq<char>,
    minify: bool,
    root: Seq<char>,
    entry: Seq<Seq<char>>,
)
    ensures
        bundle_lines(files, name, minify, root, entry, empty_state()) matches Ok(st) ==> depth(
            st.out,
        ) == Some(0int),
{
    lemma_bundle_depth(files, name, minify, root, entry, empty_state(), 0);
}

/// Suppression: a crate-qualified import of a path already inlined adds
/// nothing to the bundle and leaves the suppression set as it is.
pub proof fn lemma_suppressed_import_dropped(
    files: Seq<FileModel>,
    name: Seq<char>,
    minify: bool,
    root: Seq<char>,
    line: Seq<char>,
    rest: Seq<Seq<char>>,
    st: BundleState,
)
    requires
        line_kind(trim_end(line), name) matches LineKindModel::PlainUseOfCrate(p) && st.suppressed.contains(
            p,
        ),
    ensures
        bundle_lines(files, name, minify, root, seq![line] + rest, st) == bundle_lines(
            files,
            name,
            minify,
            root,
            rest,
            st,
        ),
{
    assert((seq![line] + rest).drop_first() =~= rest);
    assert((seq![line] + rest)[0] == line);
}

/// Exclusion: a `pub mod tests;` declaration, in the library root or in any
/// module below it, adds nothing to the bundle: no block is opened, no file is
/// looked up, and nothing is marked as inlined.
pub proof fn lemma_tests_module_excluded(
    files: Seq<FileModel>,
    name: Seq<char>,
    minify: bool,
    line: Seq<char>,
    rest: Seq<Seq<char>>,
    stem: Seq<char>,
    import: Seq<char>,
    st: BundleState,
)
    requires
        line_kind(trim_end(line), name) == LineKindModel::ModuleDeclaration(tests_name()),
    ensures
        expand_lines(files, name, minify, seq![line] + rest, stem, import, st) == expand_lines(
            files,
            name,
            minify,
            rest,
            stem,
            import,
            st,
        ),
{
    assert((seq![line] + rest).drop_first() =~= rest);
    assert((seq![line] + rest)[0] == line);
}

/// A bundle line as minification writes it: text without leading and
/// trailing whitespace.
pub open spec fn minified(o: OutModel) -> OutModel {
    match o {
        OutModel::Text(t) => OutModel::Text(trim(t)),
        _ => o,
    }
}

pub open spec fn minified_all(s: Seq<OutModel>) -> Seq<OutModel> {
    s.map_values(|o: OutModel| minified(o))
}

/// `m` is `p` with each text line trimmed at both ends: both
/// fail alike, or both succeed with the same suppression set and line for line
/// the same blocks.
pub open spec fn only_cosmetic(
    m: Result<BundleState, Seq<char>>,
    p: Result<BundleState, Seq<char>>,
) -> bool {
    match (m, p) {
        (Ok(x), Ok(y)) => x.suppressed == y.suppressed && x.out == minified_all(y.out),
        (Err(x), Err(y)) => x == y,
        _ => false,
    }
}

proof fn lemma_minified_push(s: Seq<OutModel>, o: OutModel)
    ensures
        minified_all(s.push(o)) == minified_all(s).push(minified(o)),
{
    assert(minified_all(s.push(o)) =~= minified_all(s).push(minified(o)));
}

proof fn lemma_use_line_trimmed(p: Seq<char>)
    ensures
        trim(use_line(p)) == use_line(p),
{
    let u = use_line(p);
    assert(u.last() == ';');
    assert(!is_space(';'));
    lemma_trim_end_of_solid(u);
    assert(u[0] == 'u');
    assert(!is_space('u'));
    assert(skip_space_from(u, 0) == 0);
    assert(u.skip(0) =~= u);
}

/// Minification is cosmetic within a module body: with it the expansion fails
/// exactly when it fails without it, and otherwise has the same blocks and
/// suppressed imports, each text line trimmed at both ends.
pub proof fn lemma_expand_cosmetic(
    files: Seq<FileModel>,
    name: Seq<char>,
    lines: Seq<Seq<char>>,
    stem: Seq<char>,
    import: Seq<char>,
    sm: BundleState,
    sp: BundleState,
)
    requires
        sm.suppressed == sp.suppressed,
        sm.out == minified_all(sp.out),
    ensures
        only_cosmetic(
            expand_lines(files, name, true, lines, stem, import, sm),
            expand_lines(files, name, false, lines, stem, import, sp),
        ),
    decreases crate::tree::path_bound(files) - stem.len(), lines.len(),
{
    if lines.len() > 0 {
        let line = trim_end(lines[0]);
        let rest = lines.drop_first();
        lemma_mod_name_not_empty(line, name);
        match line_kind(line, name) {
            LineKindModel::Comment => {
                lemma_expand_cosmetic(files, name, rest, stem, import, sm, sp);
            },
            LineKindModel::LintAttribute => {
                lemma_expand_cosmetic(files, name, rest, stem, import, sm, sp);
            },
            LineKindModel::ModuleDeclaration(m) => {
                if m == tests_name() {
                    lemma_expand_cosmetic(files, name, rest, stem, import, sm, sp);
                } else {
                    let cs = child_stem(stem, m);
                    let ci = child_import(import, m);
                    lemma_child_stem_grows(files, stem, m);
                    if let Some(i) = find_module(files, cs) {
                        let m1 = BundleState {
                            out: sm.out.push(OutModel::Open(m)),
                            suppressed: sm.suppressed.push(ci),
                        };
                        let p1 = BundleState {
                            out: sp.out.push(OutModel::Open(m)),
                            suppressed: sp.suppressed.push(ci),
                        };
                        lemma_minified_push(sp.out, OutModel::Open(m));
                        lemma_expand_cosmetic(files, name, files[i].lines, cs, ci, m1, p1);
                        let rm = expand_lines(files, name, true, files[i].lines, cs, ci, m1);
                        let rp = expand_lines(files, name, false, files[i].lines, cs, ci, p1);
                        if let (Ok(m2), Ok(p2)) = (rm, rp) {
                            lemma_minified_push(p2.out, OutModel::Close);
                            lemma_expand_cosmetic(
                                files,
                                name,
                                rest,
                                stem,
                                import,
                                emit(m2, OutModel::Close),
                                emit(p2, OutModel::Close),
                            );
                        }
                    }
                }
            },
            _ => {
                lemma_trim_end_idempotent(lines[0]);
                lemma_minified_push(sp.out, passthrough(line, false));
                lemma_expand_cosmetic(
                    files,
                    name,
                    rest,
                    stem,
                    import,
                    emit(sm, passthrough(line, true)),
                    emit(sp, passthrough(line, false)),
                );
            },
        }
    }
}

proof fn lemma_bundle_cosmetic(
    files: Seq<FileModel>,
    name: Seq<char>,
    root: Seq<char>,
    entry: Seq<Seq<char>>,
    sm: BundleState,
    sp: BundleState,
)
    requires
        sm.suppressed == sp.suppressed,
        sm.out == minified_all(sp.out),
    ensures
        only_cosmetic(
            bundle_lines(files, name, true, root, entry, sm),
            bundle_lines(files, name, false, root, entry, sp),
        ),
    decreases entry.len(),
{
    if entry.len() > 0 {
        let line = trim_end(entry[0]);
        let rest = entry.drop_first();
        match line_kind(line, name) {
            LineKindModel::Comment => {
                lemma_bundle_cosmetic(files, name, root, rest, sm, sp);
            },
            LineKindModel::LintAttribute => {
                lemma_bundle_cosmetic(files, name, root, rest, sm, sp);
            },
            LineKindModel::CrateImport => {
                if let Some(i) = find_file(files, root) {
                    let lib = files[i].lines;
                    lemma_expand_cosmetic(files, name, lib, Seq::empty(), Seq::empty(), sm, sp);
                    let rm = expand_lines(files, name, true, lib, Seq::empty(), Seq::empty(), sm);
                    let rp = expand_lines(files, name, false, lib, Seq::empty(), Seq::empty(), sp);
                    if let (Ok(m1), Ok(p1)) = (rm, rp) {
                        lemma_bundle_cosmetic(files, name, root, rest, m1, p1);
                    }
                }
            },
            LineKindModel::PlainUseOfCrate(p) => {
                if sp.suppressed.contains(p) {
                    lemma_bundle_cosmetic(files, name, root, rest, sm, sp);
                } else {
                    lemma_use_line_trimmed(p);
                    lemma_minified_push(sp.out, OutModel::Text(use_line(p)));
                    lemma_bundle_cosmetic(
                        files,
                        name,
                        root,
                        rest,
                        emit(sm, OutModel::Text(use_line(p))),
                        emit(sp, OutModel::Text(use_line(p))),
                    );
                }
            },
            _ => {
                lemma_trim_end_idempotent(entry[0]);
                lemma_minified_push(sp.out, passthrough(line, false));
                lemma_bundle_cosmetic(
                    files,
                    name,
                    root,
                    rest,
                    emit(sm, passthrough(line, true)),
                    emit(sp, passthrough(line, false)),
                );
            },
        }
    }
}

/// Minification is cosmetic: with it the bundle fails exactly when it fails
/// without it, and otherwise has the same lines, blocks and suppressed imports,
/// each text line trimmed at both ends.
pub proof fn lemma_minify_cosmetic(
    files: Seq<FileModel>,
    name: Seq<char>,
    root: Seq<char>,
    entry: Seq<Seq<char>>,
)
    ensures
        only_cosmetic(
            bundle_lines(files, name, true, root, entry, empty_state()),
            bundle_lines(files, name, false, root, entry, empty_state()),
        ),
{
    assert(minified_all(Seq::<OutModel>::empty()) =~= Seq::<OutModel>::empty());
    lemma_bundle_cosmetic(files, name, root, entry, empty_state(), empty_state());
}

/// `a` is a prefix of `b`.
pub open spec fn is_prefix(a: Seq<Seq<char>>, b: Seq<Seq<char>>) -> bool {
    a.len() <= b.len() && b.take(a.len() as int) == a
}

proof fn lemma_prefix_push(a: Seq<Seq<char>>, b: Seq<Seq<char>>, x: Seq<char>)
    requires
        is_prefix(a, b),
    ensures
        is_prefix(a, b.push(x)),
{
    assert(b.push(x).take(a.len() as int) =~= b.take(a.len() as int));
}

proof fn lemma_prefix_trans(a: Seq<Seq<char>>, b: Seq<Seq<char>>, c: Seq<Seq<char>>)
    requires
        is_prefix(a, b),
        is_prefix(b, c),
    ensures
        is_prefix(a, c),
{
    assert(c.take(a.len() as int) =~= b.take(a.len() as int));
}

/// Expanding a module body only adds to the suppression set.
pub proof fn lemma_expand_keeps_suppressed(
    files: Seq<FileModel>,
    name: Seq<char>,
    minify: bool,
    lines: Seq<Seq<char>>,
    stem: Seq<char>,
    import: Seq<char>,
    st: BundleState,
)
    ensures
        expand_lines(files, name, minify, lines, stem, import, st) matches Ok(st2) ==> is_prefix(
            st.suppressed,
            st2.suppressed,
        ),
    decreases crate::tree::path_bound(files) - stem.len(), lines.len(),
{
    assert(st.suppressed.take(st.suppressed.len() as int) =~= st.suppressed);
    if lines.len() > 0 {
        let line = trim_end(lines[0]);
        let rest = lines.drop_first();
        lemma_mod_name_not_empty(line, name);
        match line_kind(line, name) {
            LineKindModel::Comment => {
                lemma_expand_keeps_suppressed(files, name, minify, rest, stem, import, st);
            },
            LineKindModel::LintAttribute => {
                lemma_expand_keeps_suppressed(files, name, minify, rest, stem, import, st);
            },
            LineKindModel::ModuleDeclaration(m) => {
                if m == tests_name() {
                    lemma_expand_keeps_suppressed(files, name, minify, rest, stem, import, st);
                } else {
                    let cs = child_stem(stem, m);
                    let ci = child_import(import, m);
                    lemma_child_stem_grows(files, stem, m);
                    if let Some(i) = find_module(files, cs) {
                        let st1 = BundleState {
                            out: st.out.push(OutModel::Open(m)),
                            suppressed: st.suppressed.push(ci),
                        };
                        lemma_prefix_push(st.suppressed, st.suppressed, ci);
                        lemma_expand_keeps_suppressed(files, name, minify, files[i].lines, cs, ci, st1);
                        if let Ok(st2) = expand_lines(files, name, minify, files[i].lines, cs, ci, st1) {
                            lemma_prefix_trans(st.suppressed, st1.suppressed, st2.suppressed);
                            let st3 = emit(st2, OutModel::Close);
                            lemma_expand_keeps_suppressed(files, name, minify, rest, stem, import, st3);
                            if let Ok(st4) = expand_lines(files, name, minify, rest, stem, import, st3) {
                                lemma_prefix_trans(st.suppressed, st3.suppressed, st4.suppressed);
                            }
                        }
                    }
                }
            },
            _ => {
                lemma_expand_keeps_suppressed(
                    files,
                    name,
                    minify,
                    rest,
                    stem,
                    import,
                    emit(st, passthrough(line, minify)),
                );
            },
        }
    }
}

/// The suppression set of a run only grows: a path, once marked as inlined,
/// stays marked for the rest of the run.
pub proof fn lemma_bundle_keeps_suppressed(
    files: Seq<FileModel>,
    name: Seq<char>,
    minify: bool,
    root: Seq<char>,
    entry: Seq<Seq<char>>,
    st: BundleState,
)
    ensures
        bundle_lines(files, name, minify, root, entry, st) matches Ok(st2) ==> is_prefix(
            st.suppressed,
            st2.suppressed,
        ),
    decreases entry.len(),
{
    assert(st.suppressed.take(st.suppressed.len() as int) =~= st.suppressed);
    if entry.len() > 0 {
        let line = trim_end(entry[0]);
        let rest = entry.drop_first();
        match line_kind(line, name) {
            LineKindModel::CrateImport => {
                if let Some(i) = find_file(files, root) {
                    let lib = files[i].lines;
                    lemma_expand_keeps_suppressed(
                        files,
                        name,
                        minify,
                        lib,
                        Seq::empty(),
                        Seq::empty(),
                        st,
                    );
                    if let Ok(st1) = expand_lines(
                        files,
                        name,
                        minify,
                        lib,
                        Seq::empty(),
                        Seq::empty(),
                        st,
                    ) {
                        lemma_bundle_keeps_suppressed(files, name, minify, root, rest, st1);
                        if let Ok(st2) = bundle_lines(files, name, minify, root, rest, st1) {
                            lemma_prefix_trans(st.suppressed, st1.suppressed, st2.suppressed);
                        }
                    }
                }
            },
            LineKindModel::PlainUseOfCrate(p) => {
                if st.suppressed.contains(p) {
                    lemma_bundle_keeps_suppressed(files, name, minify, root, rest, st);
                } else {
                    lemma_bundle_keeps_suppressed(
                        files,
                        name,
                        minify,
                        root,
                        rest,
                        emit(st, OutModel::Text(use_line(p))),
                    );
                }
            },
            LineKindModel::Comment => {
                lemma_bundle_keeps_suppressed(files, name, minify, root, rest, st);
            },
            LineKindModel::LintAttribute => {
                lemma_bundle_keeps_suppressed(files, name, minify, root, rest, st);
            },
            _ => {
                lemma_bundle_keeps_suppressed(
                    files,
                    name,
                    minify,
                    root,
                    rest,
                    emit(st, passthrough(line, minify)),
                );
            },
        }
    }
}

/// Exclusion: a `pub mod tests;` declaration anywhere in a module body (the
/// library root or a module at any depth) changes nothing: expanding the body
/// gives exactly what it gives with that line deleted.
pub proof fn lemma_tests_declaration_removable(
    files: Seq<FileModel>,
    name: Seq<char>,
    minify: bool,
    pre: Seq<Seq<char>>,
    line: Seq<char>,
    post: Seq<Seq<char>>,
    stem: Seq<char>,
    import: Seq<char>,
    st: BundleState,
)
    requires
        line_kind(trim_end(line), name) == LineKindModel::ModuleDeclaration(tests_name()),
    ensures
        expand_lines(files, name, minify, pre + seq![line] + post, stem, import, st)
            == expand_lines(files, name, minify, pre + post, stem, import, st),
    decreases pre.len(),
{
    let a = pre + seq![line] + post;
    let b = pre + post;
    if pre.len() == 0 {
        assert(a =~= seq![line] + post);
        assert(b =~= post);
        lemma_tests_module_excluded(files, name, minify, line, post, stem, import, st);
    } else {
        let rest_pre = pre.drop_first();
        assert(a.drop_first() =~= rest_pre + seq![line] + post);
        assert(b.drop_first() =~= rest_pre + post);
        assert(a[0] == pre[0]);
        assert(b[0] == pre[0]);
        let h = trim_end(pre[0]);
        match line_kind(h, name) {
            LineKindModel::ModuleDeclaration(m) => {
                if m == tests_name() {
                    lemma_tests_declaration_removable(
                        files, name, minify, rest_pre, line, post, stem, import, st);
                } else {
                    let cs = child_stem(stem, m);
                    let ci = child_import(import, m);
                    if let Some(i) = find_module(files, cs) {
                        let st1 = BundleState {
                            out: st.out.push(OutModel::Open(m)),
                            suppressed: st.suppressed.push(ci),
                        };
                        if let Ok(st2) = expand_lines(files, name, minify, files[i].lines, cs, ci, st1) {
                            lemma_tests_declaration_removable(
                                files,
                                name,
                                minify,
                                rest_pre,
                                line,
                                post,
                                stem,
                                import,
                                emit(st2, OutModel::Close),
                            );
                        }
                    }
                }
            },
            LineKindModel::Comment => {
                lemma_tests_declaration_removable(
                    files, name, minify, rest_pre, line, post, stem, import, st);
            },
            LineKindModel::LintAttribute => {
                lemma_tests_declaration_removable(
                    files, name, minify, rest_pre, line, post, stem, import, st);
            },
            _ => {
                lemma_tests_declaration_removable(
                    files,
                    name,
                    minify,
                    rest_pre,
                    line,
                    post,
                    stem,
                    import,
                    emit(st, passthrough(h, minify)),
                );
            },
        }
    }
}

/// A module that no file backs aborts the expansion with its flat file's path:
/// it is never skipped, and nothing after it is expanded.
pub proof fn lemma_missing_module_fails(
    files: Seq<FileModel>,
    name: Seq<char>,
    minify: bool,
    line: Seq<char>,
    m: Seq<char>,
    rest: Seq<Seq<char>>,
    stem: Seq<char>,
    import: Seq<char>,
    st: BundleState,
)
    requires
        line_kind(trim_end(line), name) == LineKindModel::ModuleDeclaration(m),
        m != tests_name(),
        find_module(files, child_stem(stem, m)) is None,
    ensures
        expand_lines(files, name, minify, seq![line] + rest, stem, import, st) == Err::<
            BundleState,
            Seq<char>,
        >(flat_candidate(child_stem(stem, m))),
{
    assert((seq![line] + rest).drop_first() =~= rest);
    assert((seq![line] + rest)[0] == line);
}

/// A crate-qualified import of a path not yet inlined is written as a local
/// import of that path, unminified, and the suppression set is left as it is.
pub proof fn lemma_unsuppressed_import_rewritten(
    files: Seq<FileModel>,
    name: Seq<char>,
    minify: bool,
    root: Seq<char>,
    line: Seq<char>,
    p: Seq<char>,
    rest: Seq<Seq<char>>,
    st: BundleState,
)
    requires
        line_kind(trim_end(line), name) == LineKindModel::PlainUseOfCrate(p),
        !st.suppressed.contains(p),
    ensures
        bundle_lines(files, name, minify, root, seq![line] + rest, st) == bundle_lines(
            files,
            name,
            minify,
            root,
            rest,
            emit(st, OutModel::Text(use_line(p))),
        ),
{
    assert((seq![line] + rest).drop_first() =~= rest);
    assert((seq![line] + rest)[0] == line);
}

proof fn lemma_find_same_paths(files: Seq<FileModel>, other: Seq<FileModel>, p: Seq<char>, i: int)
    requires
        files.len() == other.len(),
        forall|k: int| 0 <= k < files.len() ==> files[k].path == other[k].path,
    ensures
        find_from(files, p, i) == find_from(other, p, i),
    decreases files.len() - i,
{
    if 0 <= i < files.len() && files[i].path != p {
        lemma_find_same_paths(files, other, p, i + 1);
    }
}

/// Exclusion over the whole tree: deleting a `pub mod tests;` line from any
/// file of the tree leaves the expansion of every module body unchanged, so no
/// block, line or import path of a `tests` module ever reaches the bundle.
pub proof fn lemma_tests_declaration_removable_in_tree(
    files: Seq<FileModel>,
    j: int,
    pre: Seq<Seq<char>>,
    line: Seq<char>,
    post: Seq<Seq<char>>,
    name: Seq<char>,
    minify: bool,
    lines: Seq<Seq<char>>,
    stem: Seq<char>,
    import: Seq<char>,
    st: BundleState,
)
    requires
        0 <= j < files.len(),
        files[j].lines == pre + seq![line] + post,
        line_kind(trim_end(line), name) == LineKindModel::ModuleDeclaration(tests_name()),
    ensures
        expand_lines(files, name, minify, lines, stem, import, st) == expand_lines(
            files.update(j, FileModel { path: files[j].path, lines: pre + post }),
            name,
            minify,
            lines,
            stem,
            import,
            st,
        ),
    decreases crate::tree::path_bound(files) - stem.len(), lines.len(),
{
    let other = files.update(j, FileModel { path: files[j].path, lines: pre + post });
    assert forall|k: int| 0 <= k < files.len() implies files[k].path == other[k].path by {}
    lemma_path_bound_same(files, other);
    if lines.len() > 0 {
        let h = trim_end(lines[0]);
        let rest = lines.drop_first();
        lemma_mod_name_not_empty(h, name);
        match line_kind(h, name) {
            LineKindModel::ModuleDeclaration(m) => {
                if m == tests_name() {
                    lemma_tests_declaration_removable_in_tree(
                        files, j, pre, line, post, name, minify, rest, stem, import, st);
                } else {
                    let cs = child_stem(stem, m);
                    let ci = child_import(import, m);
                    lemma_child_stem_grows(files, stem, m);
                    lemma_find_same_paths(files, other, crate::tree::flat_candidate(cs), 0);
                    lemma_find_same_paths(files, other, crate::tree::index_candidate(cs), 0);
                    assert(find_module(files, cs) == find_module(other, cs));
                    if let Some(i) = find_module(files, cs) {
                        let st1 = BundleState {
                            out: st.out.push(OutModel::Open(m)),
                            suppressed: st.suppressed.push(ci),
                        };
                        lemma_tests_declaration_removable_in_tree(
                            files, j, pre, line, post, name, minify, files[i].lines, cs, ci, st1);
                        if i == j {
                            lemma_tests_declaration_removable(
                                other, name, minify, pre, line, post, cs, ci, st1);
                        }
                        assert(expand_lines(files, name, minify, files[i].lines, cs, ci, st1)
                            == expand_lines(other, name, minify, other[i].lines, cs, ci, st1));
                        if let Ok(st2) = expand_lines(files, name, minify, files[i].lines, cs, ci, st1) {
                            lemma_tests_declaration_removable_in_tree(
                                files,
                                j,
                                pre,
                                line,
                                post,
                                name,
                                minify,
                                rest,
                                stem,
                                import,
                                emit(st2, OutModel::Close),
                            );
                        }
                    }
                }
            },
            LineKindModel::Comment => {
                lemma_tests_declaration_removable_in_tree(
                    files, j, pre, line, post, name, minify, rest, stem, import, st);
            },
            LineKindModel::LintAttribute => {
                lemma_tests_declaration_removable_in_tree(
                    files, j, pre, line, post, name, minify, rest, stem, import, st);
            },
            _ => {
                lemma_tests_declaration_removable_in_tree(
                    files,
                    j,
                    pre,
                    line,
                    post,
                    name,
                    minify,
                    rest,
                    stem,
                    import,
                    emit(st, passthrough(h, minify)),
                );
            },
        }
    }
}

proof fn lemma_path_bound_same(files: Seq<FileModel>, other: Seq<FileModel>)
    requires
        files.len() == other.len(),
        forall|k: int| 0 <= k < files.len() ==> files[k].path == other[k].path,
    ensures
        crate::tree::path_bound(files) == crate::tree::path_bound(other),
    decreases files.len(),
{
    if files.len() > 0 {
        let a = files.drop_last();
        let b = other.drop_last();
        assert forall|k: int| 0 <= k < a.len() implies a[k].path == b[k].path by {
            assert(a[k] == files[k]);
            assert(b[k] == other[k]);
        }
        lemma_path_bound_same(a, b);
    }
}

/// Inside a module body, a line that declares no module is handled the same
/// wherever it stands: a comment or lint attribute adds nothing, and any other
/// line adds exactly its written form, whatever the module's path, import path
/// and suppression set.
pub proof fn lemma_plain_line_in_body(
    files: Seq<FileModel>,
    name: Seq<char>,
    minify: bool,
    line: Seq<char>,
    rest: Seq<Seq<char>>,
    stem: Seq<char>,
    import: Seq<char>,
    st: BundleState,
)
    requires
        !(line_kind(trim_end(line), name) is ModuleDeclaration),
    ensures
        expand_lines(files, name, minify, seq![line] + rest, stem, import, st) == if line_kind(
            trim_end(line),
            name,
        ) is Comment || line_kind(trim_end(line), name) is LintAttribute {
            expand_lines(files, name, minify, rest, stem, import, st)
        } else {
            expand_lines(
                files,
                name,
                minify,
                rest,
                stem,
                import,
                emit(st, passthrough(trim_end(line), minify)),
            )
        },
{
    assert((seq![line] + rest).drop_first() =~= rest);
    assert((seq![line] + rest)[0] == line);
}

/// A declared module that a file backs becomes one block: the opening line,
/// with its import path marked as inlined before its body is read, then the
/// expansion of its file, then the closing line; after that the rest of the
/// body goes on.
pub proof fn lemma_module_block(
    files: Seq<FileModel>,
    name: Seq<char>,
    minify: bool,
    line: Seq<char>,
    m: Seq<char>,
    rest: Seq<Seq<char>>,
    stem: Seq<char>,
    import: Seq<char>,
    st: BundleState,
    i: int,
)
    requires
        line_kind(trim_end(line), name) == LineKindModel::ModuleDeclaration(m),
        m != tests_name(),
        find_module(files, child_stem(stem, m)) == Some(i),
    ensures
        expand_lines(files, name, minify, seq![line] + rest, stem, import, st) == match expand_lines(
            files,
            name,
            minify,
            files[i].lines,
            child_stem(stem, m),
            child_import(import, m),
            BundleState {
                out: st.out.push(OutModel::Open(m)),
                suppressed: st.suppressed.push(child_import(import, m)),
            },
        ) {
            Err(e) => Err(e),
            Ok(st2) => expand_lines(
                files,
                name,
                minify,
                rest,
                stem,
                import,
                emit(st2, OutModel::Close),
            ),
        },
{
    assert((seq![line] + rest).drop_first() =~= rest);
    assert((seq![line] + rest)[0] == line);
}

} // verus!
