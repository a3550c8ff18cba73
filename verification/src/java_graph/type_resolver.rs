//! Type resolution across the analysed files: imports, packages, the
//! global index of type names, and inheritance.

use vstd::prelude::*;

pub use crate::java_graph::model::{
    AnnotationInfo, AnnotationTarget, AnnotationUsage, ClassInfo, ConstructorCall, FieldInfo,
    FileInfo, MethodCall, MethodInfo, SourcePosition, VariableDeclaration,
};

use crate::java_graph::extract::{extracted_from, file_info_from_tree, file_info_of, qualified};
use crate::java_graph::model::{
    annotation_views, field_views, method_views, string_views, AnnotationInfoView,
    ClassInfoView, FieldInfoView, FileInfoView, MethodInfoView,
};
use crate::strmap::{
    entries_view, insert_entry, keys_distinct, keys_of, lemma_insert_list_view, lemma_insert_view,
    lemma_keys_view, lemma_lookup_list_view, lemma_lookup_view, list_append, list_view, lookup,
    StrMap,
};
use crate::syntax::{java_tree, texts_match, tree_wf, NodeView, SyntaxTree};
use crate::text::{
    concat2, concat3, ends_with, ends_with_str, opt_view, own, somes, str_eq, str_views,
};

verus! {

/// Why a file could not be analysed.
#[derive(Debug, Clone, PartialEq, Eq, Structural)]
pub enum AnalysisError {
    /// The Java grammar could not be loaded or the source not parsed.
    ParseFailed,
}

/// The symbols of all analysed files and the indexes built over them.
#[derive(Debug)]
pub struct TypeResolver {
    /// File path to the file's symbols.
    pub file_infos: StrMap<FileInfo>,
    /// Simple type name to the qualified names declared with it.
    pub global_type_index: StrMap<Vec<String>>,
    /// Qualified class name to the qualified name of its superclass.
    pub inheritance_map: StrMap<String>,
    /// Qualified class name to the qualified names of its interfaces.
    pub interface_map: StrMap<Vec<String>>,
}

/// The mathematical value of a [`TypeResolver`].
pub struct TypeResolverView {
    pub file_infos: Seq<(Seq<char>, FileInfoView)>,
    pub global_type_index: Seq<(Seq<char>, Seq<Seq<char>>)>,
    pub inheritance_map: Seq<(Seq<char>, Seq<char>)>,
    pub interface_map: Seq<(Seq<char>, Seq<Seq<char>>)>,
}

impl View for TypeResolver {
    type V = TypeResolverView;

    open spec fn view(&self) -> TypeResolverView {
        TypeResolverView {
            file_infos: entries_view(self.file_infos@),
            global_type_index: list_view(self.global_type_index@),
            inheritance_map: entries_view(self.inheritance_map@),
            interface_map: list_view(self.interface_map@),
        }
    }
}

// ---------------------------------------------------------------------------
// Name classes
// ---------------------------------------------------------------------------

/// Java's primitive type names and `void`.
pub open spec fn primitive_names() -> Seq<Seq<char>> {
    seq!["boolean"@, "byte"@, "char"@, "short"@, "int"@, "long"@, "float"@, "double"@, "void"@]
}

/// The `java.lang` types that resolve without an import.
pub open spec fn java_lang_names() -> Seq<Seq<char>> {
    seq![
        "String"@,
        "Object"@,
        "Class"@,
        "Integer"@,
        "Long"@,
        "Double"@,
        "Float"@,
        "Boolean"@,
        "Byte"@,
        "Short"@,
        "Character"@,
        "Math"@,
        "System"@,
        "Thread"@,
        "Runnable"@,
        "Exception"@,
        "RuntimeException"@,
        "Error"@,
        "Throwable"@,
        "StringBuilder"@,
        "StringBuffer"@,
        "Number"@,
        "Void"@,
    ]
}

fn contains_name(list: &Vec<&str>, name: &str) -> (b: bool)
    ensures
        b == str_views(list@).contains(name@),
{
    let n = list.len();
    for i in 0..n
        invariant
            n == list@.len(),
            forall|j: int| 0 <= j < i ==> str_views(list@)[j] != name@,
    {
        if str_eq(list[i], name) {
            assert(str_views(list@)[i as int] == name@);
            return true;
        }
    }
    false
}

/// Whether a type name is a primitive type (or `void`).
pub fn is_primitive(name: &str) -> (b: bool)
    ensures
        b == primitive_names().contains(name@),
{
    let names = vec!["boolean", "byte", "char", "short", "int", "long", "float", "double", "void"];
    assert(str_views(names@) =~= primitive_names());
    contains_name(&names, name)
}

/// Whether a type name is one of the `java.lang` types imported implicitly.
pub fn is_java_lang_type(name: &str) -> (b: bool)
    ensures
        b == java_lang_names().contains(name@),
{
    let names = vec![
        "String",
        "Object",
        "Class",
        "Integer",
        "Long",
        "Double",
        "Float",
        "Boolean",
        "Byte",
        "Short",
        "Character",
        "Math",
        "System",
        "Thread",
        "Runnable",
        "Exception",
        "RuntimeException",
        "Error",
        "Throwable",
        "StringBuilder",
        "StringBuffer",
        "Number",
        "Void",
    ];
    assert(str_views(names@) =~= java_lang_names());
    contains_name(&names, name)
}

// ---------------------------------------------------------------------------
// Resolution of a simple type name
// ---------------------------------------------------------------------------

/// Whether the global index lists `candidate` under `name`.
pub open spec fn index_lists(
    index: Seq<(Seq<char>, Seq<Seq<char>>)>,
    name: Seq<char>,
    candidate: Seq<char>,
) -> bool {
    match lookup(index, name) {
        Some(l) => l.contains(candidate),
        None => false,
    }
}

/// The first wildcard-imported package under which the index lists `name`,
/// as the qualified candidate.
pub open spec fn wildcard_candidate(
    index: Seq<(Seq<char>, Seq<Seq<char>>)>,
    packages: Seq<Seq<char>>,
    name: Seq<char>,
) -> Option<Seq<char>>
    decreases packages.len(),
{
    if packages.len() == 0 {
        None
    } else if index_lists(index, name, packages[0] + "."@ + name) {
        Some(packages[0] + "."@ + name)
    } else {
        wildcard_candidate(index, packages.drop_first(), name)
    }
}

/// The resolution of a simple type name in a file, tried in order: a
/// primitive resolves to itself; an explicit import to its path; in a file
/// with a package, a class of the file or a type the index lists in the
/// same package to the package-qualified name; in a file without one, a
/// class of the file to its simple name; a `java.lang` type to
/// `java.lang.name`; a type the index lists under a wildcard-imported
/// package to that qualified name. Anything else does not resolve.
pub open spec fn resolve_in(
    index: Seq<(Seq<char>, Seq<Seq<char>>)>,
    package: Option<Seq<char>>,
    imports: Seq<(Seq<char>, Seq<char>)>,
    class_names: Seq<Seq<char>>,
    wildcards: Seq<Seq<char>>,
    name: Seq<char>,
) -> Option<Seq<char>> {
    if primitive_names().contains(name) {
        Some(name)
    } else if lookup(imports, name) is Some {
        lookup(imports, name)
    } else if package is Some && class_names.contains(name) {
        Some(package->0 + "."@ + name)
    } else if package is Some && index_lists(index, name, package->0 + "."@ + name) {
        Some(package->0 + "."@ + name)
    } else if package is None && class_names.contains(name) {
        Some(name)
    } else if java_lang_names().contains(name) {
        Some("java.lang."@ + name)
    } else {
        wildcard_candidate(index, wildcards, name)
    }
}

/// The resolution of a simple type name in an analysed file.
pub open spec fn resolve_in_file(
    index: Seq<(Seq<char>, Seq<Seq<char>>)>,
    fi: FileInfoView,
    name: Seq<char>,
) -> Option<Seq<char>> {
    resolve_in(
        index,
        fi.package_name,
        fi.explicit_imports,
        keys_of(fi.classes),
        fi.wildcard_imports,
        name,
    )
}

/// The resolution of a simple type name as used in the file at `path`;
/// nothing for a file that was not analysed.
pub open spec fn resolved_name(r: TypeResolverView, name: Seq<char>, path: Seq<char>) -> Option<
    Seq<char>,
> {
    match lookup(r.file_infos, path) {
        Some(fi) => resolve_in_file(r.global_type_index, fi, name),
        None => None,
    }
}

fn list_contains(list: &Vec<String>, s: &str) -> (b: bool)
    ensures
        b == string_views(list@).contains(s@),
{
    let n = list.len();
    for i in 0..n
        invariant
            n == list@.len(),
            forall|j: int| 0 <= j < i ==> string_views(list@)[j] != s@,
    {
        if str_eq(list[i].as_str(), s) {
            assert(string_views(list@)[i as int] == s@);
            return true;
        }
    }
    false
}

fn index_lists_exec(index: &StrMap<Vec<String>>, name: &str, candidate: &str) -> (b: bool)
    ensures
        b == index_lists(list_view(index@), name@, candidate@),
{
    let found = index.get(name);
    proof {
        lemma_lookup_list_view(index@, name@);
    }
    match found {
        Some(l) => list_contains(l, candidate),
        None => false,
    }
}

/// Resolves a simple type name against a file's package, imports and class
/// names and the global index.
fn resolve_with(
    index: &StrMap<Vec<String>>,
    package: &Option<String>,
    imports: &StrMap<String>,
    class_names: &Vec<String>,
    wildcards: &Vec<String>,
    name: &str,
) -> (r: Option<String>)
    ensures
        opt_view(r) == resolve_in(
            list_view(index@),
            opt_view(*package),
            entries_view(imports@),
            string_views(class_names@),
            string_views(wildcards@),
            name@,
        ),
{
    if is_primitive(name) {
        return Some(own(name));
    }
    let imported = imports.get(name);
    proof {
        lemma_lookup_view(imports@, name@);
    }
    match imported {
        Some(fqdn) => {
            return Some(fqdn.clone());
        },
        None => {},
    }
    match package {
        Some(pkg) => {
            let candidate = concat3(pkg.as_str(), ".", name);
            if list_contains(class_names, name) {
                return Some(candidate);
            }
            if index_lists_exec(index, name, candidate.as_str()) {
                return Some(candidate);
            }
        },
        None => {
            if list_contains(class_names, name) {
                return Some(own(name));
            }
        },
    }
    if is_java_lang_type(name) {
        return Some(concat2("java.lang.", name));
    }
    wildcard_candidate_exec(index, wildcards, name)
}

fn wildcard_candidate_exec(index: &StrMap<Vec<String>>, wildcards: &Vec<String>, name: &str) -> (r:
    Option<String>)
    ensures
        opt_view(r) == wildcard_candidate(list_view(index@), string_views(wildcards@), name@),
{
    let n = wildcards.len();
    let ghost ws = string_views(wildcards@);
    assert(ws.skip(0) =~= ws);
    for i in 0..n
        invariant
            n == wildcards@.len(),
            ws == string_views(wildcards@),
            wildcard_candidate(list_view(index@), ws, name@) == wildcard_candidate(
                list_view(index@),
                ws.skip(i as int),
                name@,
            ),
    {
        assert(ws.skip(i as int)[0] == wildcards@[i as int]@);
        assert(ws.skip(i as int).drop_first() =~= ws.skip(i + 1));
        let candidate = concat3(wildcards[i].as_str(), ".", name);
        if index_lists_exec(index, name, candidate.as_str()) {
            assert(wildcard_candidate(list_view(index@), ws.skip(i as int), name@) == Some(
                candidate@,
            ));
            return Some(candidate);
        }
    }
    assert(ws.skip(n as int).len() == 0);
    None
}

impl TypeResolver {
    /// A resolver with no files.
    pub fn new() -> (r: Self)
        ensures
            r@.file_infos.len() == 0,
            r@.global_type_index.len() == 0,
            r@.inheritance_map.len() == 0,
            r@.interface_map.len() == 0,
    {
        TypeResolver {
            file_infos: StrMap::new(),
            global_type_index: StrMap::new(),
            inheritance_map: StrMap::new(),
            interface_map: StrMap::new(),
        }
    }

    /// Parses a Java source and extracts its symbols: those of the syntax
    /// tree that tree-sitter's Java grammar gives for the source.
    pub fn extract_file_info(file_path: &str, source: &str) -> (r: Result<FileInfo, AnalysisError>)
        ensures
            r matches Ok(fi) && extracted_from(fi@, source@, file_path@),
    {
        match SyntaxTree::parse_java(source) {
            Some(tree) => {
                let fi = file_info_from_tree(&tree, own(file_path));
                assert(tree_wf(tree@) && texts_match(tree@, source@) && fi@ == file_info_of(
                    tree@,
                    file_path@,
                ));
                Ok(fi)
            },
            None => Err(AnalysisError::ParseFailed),
        }
    }

    /// Analyses a Java source read from `file_path` and records its symbols
    /// under that path (replacing those of an earlier analysis).
    pub fn analyze_file(&mut self, file_path: &str, source: &str) -> (r: Result<(), AnalysisError>)
        ensures
            r is Ok,
            extracted_from(file_info_of(java_tree(source@), file_path@), source@, file_path@),
            final(self)@.file_infos == crate::strmap::insert_entry(
                old(self)@.file_infos,
                file_path@,
                file_info_of(java_tree(source@), file_path@),
            ),
            final(self)@.global_type_index == old(self)@.global_type_index,
            final(self)@.inheritance_map == old(self)@.inheritance_map,
            final(self)@.interface_map == old(self)@.interface_map,
    {
        match Self::extract_file_info(file_path, source) {
            Ok(fi) => {
                let ghost before = self.file_infos@;
                let ghost fv = fi;
                self.file_infos.insert(own(file_path), fi);
                proof {
                    lemma_insert_view(before, file_path@, fv);
                    assert(extracted_from(fv@, source@, file_path@));
                }
                Ok(())
            },
            Err(e) => Err(e),
        }
    }

    /// Resolves a simple type name as used in the file at `file_path`.
    pub fn resolve_type_name(&self, simple_name: &str, file_path: &str) -> (r: Option<String>)
        ensures
            opt_view(r) == resolved_name(self@, simple_name@, file_path@),
    {
        let found = self.file_infos.get(file_path);
        proof {
            lemma_lookup_view(self.file_infos@, file_path@);
        }
        match found {
            None => None,
            Some(fi) => {
                let names = fi.classes.keys();
                proof {
                    lemma_keys_view(fi.classes@);
                }
                resolve_with(
                    &self.global_type_index,
                    &fi.package_name,
                    &fi.explicit_imports,
                    &names,
                    &fi.wildcard_imports,
                    simple_name,
                )
            },
        }
    }
}

// ---------------------------------------------------------------------------
// Indexes over all files
// ---------------------------------------------------------------------------

/// The index after listing the classes' qualified names under their
/// simple names.
pub open spec fn index_classes(
    idx: Seq<(Seq<char>, Seq<Seq<char>>)>,
    classes: Seq<(Seq<char>, ClassInfoView)>,
) -> Seq<(Seq<char>, Seq<Seq<char>>)>
    decreases classes.len(),
{
    if classes.len() == 0 {
        idx
    } else {
        let c = classes.last().1;
        list_append(index_classes(idx, classes.drop_last()), c.simple_name, c.fqdn)
    }
}

/// The global index of the files: every class's qualified name listed
/// under its simple name, files and classes in order.
pub open spec fn index_files(files: Seq<(Seq<char>, FileInfoView)>) -> Seq<(Seq<char>, Seq<Seq<char>>)>
    decreases files.len(),
{
    if files.len() == 0 {
        Seq::empty()
    } else {
        index_classes(index_files(files.drop_last()), files.last().1.classes)
    }
}

/// The resolutions of the names that resolve, in order.
pub open spec fn resolved_list(
    index: Seq<(Seq<char>, Seq<Seq<char>>)>,
    fi: FileInfoView,
    names: Seq<Seq<char>>,
) -> Seq<Seq<char>> {
    somes(names.map_values(|n: Seq<char>| resolve_in_file(index, fi, n)))
}

/// Superclass and interface maps.
pub type HierarchyMaps = (Seq<(Seq<char>, Seq<char>)>, Seq<(Seq<char>, Seq<Seq<char>>)>);

/// The maps after recording one class: its superclass when it resolves,
/// its interfaces that resolve when there are any.
pub open spec fn hierarchy_class(
    index: Seq<(Seq<char>, Seq<Seq<char>>)>,
    fi: FileInfoView,
    maps: HierarchyMaps,
    c: ClassInfoView,
) -> HierarchyMaps {
    let inheritance = match c.extends {
        Some(p) => match resolve_in_file(index, fi, p) {
            Some(q) => insert_entry(maps.0, c.fqdn, q),
            None => maps.0,
        },
        None => maps.0,
    };
    let interfaces = resolved_list(index, fi, c.implements);
    let interface_map = if interfaces.len() > 0 {
        insert_entry(maps.1, c.fqdn, interfaces)
    } else {
        maps.1
    };
    (inheritance, interface_map)
}

/// The maps after recording the listed classes of a file.
pub open spec fn hierarchy_classes(
    index: Seq<(Seq<char>, Seq<Seq<char>>)>,
    fi: FileInfoView,
    maps: HierarchyMaps,
    classes: Seq<(Seq<char>, ClassInfoView)>,
) -> HierarchyMaps
    decreases classes.len(),
{
    if classes.len() == 0 {
        maps
    } else {
        hierarchy_class(
            index,
            fi,
            hierarchy_classes(index, fi, maps, classes.drop_last()),
            classes.last().1,
        )
    }
}

/// The superclass and interface maps of the files, files and classes in
/// order.
pub open spec fn hierarchy_files(
    index: Seq<(Seq<char>, Seq<Seq<char>>)>,
    files: Seq<(Seq<char>, FileInfoView)>,
) -> HierarchyMaps
    decreases files.len(),
{
    if files.len() == 0 {
        (Seq::empty(), Seq::empty())
    } else {
        let fi = files.last().1;
        hierarchy_classes(index, fi, hierarchy_files(index, files.drop_last()), fi.classes)
    }
}

fn resolve_in_file_exec(index: &StrMap<Vec<String>>, fi: &FileInfo, names: &Vec<String>, name: &str) -> (r:
    Option<String>)
    requires
        string_views(names@) == keys_of(fi@.classes),
    ensures
        opt_view(r) == resolve_in_file(list_view(index@), fi@, name@),
{
    resolve_with(index, &fi.package_name, &fi.explicit_imports, names, &fi.wildcard_imports, name)
}

impl TypeResolver {
    /// Rebuilds the global index: every class's qualified name listed under
    /// its simple name.
    pub fn build_global_index(&mut self)
        ensures
            final(self)@.global_type_index == index_files(old(self)@.file_infos),
            final(self)@.file_infos == old(self)@.file_infos,
            final(self)@.inheritance_map == old(self)@.inheritance_map,
            final(self)@.interface_map == old(self)@.interface_map,
    {
        self.global_type_index = StrMap::new();
        let ghost files = self@.file_infos;
        assert(list_view(self.global_type_index@) =~= Seq::<(Seq<char>, Seq<Seq<char>>)>::empty());
        let n = self.file_infos.len();
        for i in 0..n
            invariant
                n == self.file_infos@.len(),
                files == self@.file_infos,
                files == old(self)@.file_infos,
                self@.inheritance_map == old(self)@.inheritance_map,
                self@.interface_map == old(self)@.interface_map,
                list_view(self.global_type_index@) == index_files(files.take(i as int)),
        {
            let (_, fi) = self.file_infos.entry(i);
            let ghost fv = fi@;
            assert(files.take(i + 1).drop_last() =~= files.take(i as int));
            assert(files.take(i + 1).last().1 == fv);
            let ghost start = list_view(self.global_type_index@);
            let m = fi.classes.len();
            for j in 0..m
                invariant
                    m == fi.classes@.len(),
                    fv == fi@,
                    n == self.file_infos@.len(),
                    files == self@.file_infos,
                    self@.inheritance_map == old(self)@.inheritance_map,
                    self@.interface_map == old(self)@.interface_map,
                    list_view(self.global_type_index@) == index_classes(start, fv.classes.take(j as int)),
            {
                let (_, ci) = fi.classes.entry(j);
                assert(fv.classes.take(j + 1).drop_last() =~= fv.classes.take(j as int));
                assert(fv.classes.take(j + 1).last().1 == ci@);
                self.global_type_index.append(ci.simple_name.clone(), ci.fqdn.clone());
            }
            assert(fv.classes.take(m as int) =~= fv.classes);
        }
        assert(files.take(n as int) =~= files);
    }

    /// Rebuilds the superclass and interface maps from the classes' clauses,
    /// resolved in their files (to be called after the global index).
    pub fn build_inheritance_maps(&mut self)
        ensures
            (final(self)@.inheritance_map, final(self)@.interface_map) == hierarchy_files(
                old(self)@.global_type_index,
                old(self)@.file_infos,
            ),
            final(self)@.file_infos == old(self)@.file_infos,
            final(self)@.global_type_index == old(self)@.global_type_index,
    {
        self.inheritance_map = StrMap::new();
        self.interface_map = StrMap::new();
        let ghost files = self@.file_infos;
        let ghost index = self@.global_type_index;
        assert(entries_view(self.inheritance_map@) =~= Seq::<(Seq<char>, Seq<char>)>::empty());
        assert(list_view(self.interface_map@) =~= Seq::<(Seq<char>, Seq<Seq<char>>)>::empty());
        let n = self.file_infos.len();
        for i in 0..n
            invariant
                n == self.file_infos@.len(),
                files == self@.file_infos,
                files == old(self)@.file_infos,
                index == self@.global_type_index,
                index == old(self)@.global_type_index,
                (self@.inheritance_map, self@.interface_map) == hierarchy_files(
                    index,
                    files.take(i as int),
                ),
        {
            let (_, fi) = self.file_infos.entry(i);
            let ghost fv = fi@;
            assert(files.take(i + 1).drop_last() =~= files.take(i as int));
            assert(files.take(i + 1).last().1 == fv);
            let names = fi.classes.keys();
            proof {
                lemma_keys_view(fi.classes@);
            }
            let ghost start = (self@.inheritance_map, self@.interface_map);
            let m = fi.classes.len();
            for j in 0..m
                invariant
                    m == fi.classes@.len(),
                    fv == fi@,
                    n == self.file_infos@.len(),
                    files == self@.file_infos,
                    index == self@.global_type_index,
                    string_views(names@) == keys_of(fv.classes),
                    (self@.inheritance_map, self@.interface_map) == hierarchy_classes(
                        index,
                        fv,
                        start,
                        fv.classes.take(j as int),
                    ),
            {
                let (_, ci) = fi.classes.entry(j);
                let ghost cv = ci@;
                assert(fv.classes.take(j + 1).drop_last() =~= fv.classes.take(j as int));
                assert(fv.classes.take(j + 1).last().1 == cv);
                match &ci.extends {
                    Some(parent) => {
                        match resolve_in_file_exec(&self.global_type_index, fi, &names, parent.as_str()) {
                            Some(q) => {
                                let ghost before = self.inheritance_map@;
                                let ghost qv = q;
                                self.inheritance_map.insert(ci.fqdn.clone(), q);
                                proof {
                                    lemma_insert_view(before, cv.fqdn, qv);
                                }
                            },
                            None => {},
                        }
                    },
                    None => {},
                }
                let mut interfaces: Vec<String> = Vec::new();
                let k_n = ci.implements.len();
                let ghost f = |x: Seq<char>| resolve_in_file(index, fv, x);
                for k in 0..k_n
                    invariant
                        k_n == ci.implements@.len(),
                        cv == ci@,
                        fv == fi@,
                        index == list_view(self.global_type_index@),
                        string_views(names@) == keys_of(fv.classes),
                        f == (|x: Seq<char>| resolve_in_file(index, fv, x)),
                        string_views(interfaces@) == somes(cv.implements.take(k as int).map_values(f)),
                {
                    let ghost before = interfaces@;
                    assert(cv.implements.take(k + 1).map_values(f).drop_last() =~= cv.implements.take(
                        k as int,
                    ).map_values(f));
                    assert(cv.implements[k as int] == ci.implements@[k as int]@);
                    match resolve_in_file_exec(&self.global_type_index, fi, &names, ci.implements[k].as_str()) {
                        Some(q) => {
                            interfaces.push(q);
                            assert(string_views(interfaces@) =~= string_views(before).push(
                                interfaces@.last()@,
                            ));
                        },
                        None => {},
                    }
                }
                assert(cv.implements.take(k_n as int) =~= cv.implements);
                if interfaces.len() > 0 {
                    let ghost before = self.interface_map@;
                    let ghost iv = interfaces;
                    self.interface_map.insert(ci.fqdn.clone(), interfaces);
                    proof {
                        lemma_insert_list_view(before, cv.fqdn, iv);
                    }
                }
            }
            assert(fv.classes.take(m as int) =~= fv.classes);
        }
        assert(files.take(n as int) =~= files);
    }
}

// ---------------------------------------------------------------------------
// Annotation resolution
// ---------------------------------------------------------------------------

/// An annotation with its qualified name resolved in the file when it had
/// none.
pub open spec fn resolve_annotation(
    index: Seq<(Seq<char>, Seq<Seq<char>>)>,
    fi: FileInfoView,
    a: AnnotationInfoView,
) -> AnnotationInfoView {
    if a.fqdn is None {
        AnnotationInfoView { fqdn: resolve_in_file(index, fi, a.name), ..a }
    } else {
        a
    }
}

/// A list of annotations, each resolved.
pub open spec fn resolve_annotations(
    index: Seq<(Seq<char>, Seq<Seq<char>>)>,
    fi: FileInfoView,
    s: Seq<AnnotationInfoView>,
) -> Seq<AnnotationInfoView> {
    s.map_values(|a: AnnotationInfoView| resolve_annotation(index, fi, a))
}

/// A class with the annotations of the class, its methods and its fields
/// resolved.
pub open spec fn resolve_class_annotations(
    index: Seq<(Seq<char>, Seq<Seq<char>>)>,
    fi: FileInfoView,
    c: ClassInfoView,
) -> ClassInfoView {
    ClassInfoView {
        annotations: resolve_annotations(index, fi, c.annotations),
        methods: c.methods.map_values(
            |m: MethodInfoView|
                MethodInfoView { annotations: resolve_annotations(index, fi, m.annotations), ..m },
        ),
        fields: c.fields.map_values(
            |f: FieldInfoView|
                FieldInfoView { annotations: resolve_annotations(index, fi, f.annotations), ..f },
        ),
        ..c
    }
}

/// A file with the annotations of all its classes resolved in it.
pub open spec fn resolve_file_annotations(
    index: Seq<(Seq<char>, Seq<Seq<char>>)>,
    fi: FileInfoView,
) -> FileInfoView {
    FileInfoView {
        classes: fi.classes.map_values(
            |p: (Seq<char>, ClassInfoView)| (p.0, resolve_class_annotations(index, fi, p.1)),
        ),
        ..fi
    }
}

/// The context a file gives to the resolution of a name.
struct NameContext<'a> {
    index: &'a StrMap<Vec<String>>,
    package: Option<String>,
    imports: StrMap<String>,
    class_names: Vec<String>,
    wildcards: Vec<String>,
}

impl<'a> NameContext<'a> {
    spec fn resolves_as(&self, fi: FileInfoView) -> bool {
        &&& opt_view(self.package) == fi.package_name
        &&& entries_view(self.imports@) == fi.explicit_imports
        &&& string_views(self.class_names@) == keys_of(fi.classes)
        &&& string_views(self.wildcards@) == fi.wildcard_imports
    }

    fn resolve(&self, name: &str, Ghost(fi): Ghost<FileInfoView>) -> (r: Option<String>)
        requires
            self.resolves_as(fi),
        ensures
            opt_view(r) == resolve_in_file(list_view(self.index@), fi, name@),
    {
        resolve_with(self.index, &self.package, &self.imports, &self.class_names, &self.wildcards, name)
    }

    fn resolve_list(&self, anns: &mut Vec<AnnotationInfo>, Ghost(fi): Ghost<FileInfoView>)
        requires
            self.resolves_as(fi),
        ensures
            annotation_views(final(anns)@) == resolve_annotations(
                list_view(self.index@),
                fi,
                annotation_views(old(anns)@),
            ),
    {
        let ghost index = list_view(self.index@);
        let ghost start = annotation_views(anns@);
        let n = anns.len();
        for k in 0..n
            invariant
                n == anns@.len(),
                n == start.len(),
                self.resolves_as(fi),
                index == list_view(self.index@),
                forall|j: int| 0 <= j < k ==> #[trigger] anns@[j]@ == resolve_annotation(index, fi, start[j]),
                forall|j: int| k <= j < n ==> #[trigger] anns@[j]@ == start[j],
        {
            let ghost pre = anns@;
            assert(anns@[k as int]@ == start[k as int]);
            if anns[k].fqdn.is_none() {
                let r = self.resolve(anns[k].name.as_str(), Ghost(fi));
                anns[k].fqdn = r;
            }
            assert(anns@.len() == pre.len());
            assert forall|j: int| 0 <= j < n && j != k implies #[trigger] anns@[j] == pre[j] by {}
            assert(anns@[k as int]@ == resolve_annotation(index, fi, start[k as int]));
        }
        assert(annotation_views(anns@) =~= resolve_annotations(index, fi, start));
    }

    fn resolve_class(&self, c: &mut ClassInfo, Ghost(fi): Ghost<FileInfoView>)
        requires
            self.resolves_as(fi),
        ensures
            final(c)@ == resolve_class_annotations(list_view(self.index@), fi, old(c)@),
    {
        let ghost index = list_view(self.index@);
        self.resolve_list(&mut c.annotations, Ghost(fi));
        let ghost ms = method_views(c.methods@);
        let ghost c1 = c@;
        let nm = c.methods.len();
        for k in 0..nm
            invariant
                c@ == (ClassInfoView { methods: method_views(c.methods@), ..c1 }),
                nm == c.methods@.len(),
                nm == ms.len(),
                self.resolves_as(fi),
                index == list_view(self.index@),
                forall|j: int| 0 <= j < k ==> #[trigger] c.methods@[j]@ == (MethodInfoView {
                    annotations: resolve_annotations(index, fi, ms[j].annotations),
                    ..ms[j]
                }),
                forall|j: int| k <= j < nm ==> #[trigger] c.methods@[j]@ == ms[j],
        {
            let ghost pre = c.methods@;
            assert(c.methods@[k as int]@ == ms[k as int]);
            self.resolve_list(&mut c.methods[k].annotations, Ghost(fi));
            assert(c.methods@.len() == pre.len());
            assert forall|j: int| 0 <= j < nm && j != k implies #[trigger] c.methods@[j] == pre[j] by {}
            assert(c.methods@[k as int]@ == (MethodInfoView {
                annotations: resolve_annotations(index, fi, ms[k as int].annotations),
                ..ms[k as int]
            }));
        }
        assert(method_views(c.methods@) =~= ms.map_values(
            |m: MethodInfoView|
                MethodInfoView { annotations: resolve_annotations(index, fi, m.annotations), ..m },
        ));
        let ghost fs = field_views(c.fields@);
        let ghost c2 = c@;
        let nf = c.fields.len();
        for k in 0..nf
            invariant
                c@ == (ClassInfoView { fields: field_views(c.fields@), ..c2 }),
                nf == c.fields@.len(),
                nf == fs.len(),
                self.resolves_as(fi),
                index == list_view(self.index@),
                forall|j: int| 0 <= j < k ==> #[trigger] c.fields@[j]@ == (FieldInfoView {
                    annotations: resolve_annotations(index, fi, fs[j].annotations),
                    ..fs[j]
                }),
                forall|j: int| k <= j < nf ==> #[trigger] c.fields@[j]@ == fs[j],
        {
            let ghost pre = c.fields@;
            assert(c.fields@[k as int]@ == fs[k as int]);
            self.resolve_list(&mut c.fields[k].annotations, Ghost(fi));
            assert(c.fields@.len() == pre.len());
            assert forall|j: int| 0 <= j < nf && j != k implies #[trigger] c.fields@[j] == pre[j] by {}
            assert(c.fields@[k as int]@ == (FieldInfoView {
                annotations: resolve_annotations(index, fi, fs[k as int].annotations),
                ..fs[k as int]
            }));
        }
        assert(field_views(c.fields@) =~= fs.map_values(
            |f: FieldInfoView|
                FieldInfoView { annotations: resolve_annotations(index, fi, f.annotations), ..f },
        ));
    }
}

/// The file with nothing in it: no path, no package and no symbols.
pub open spec fn empty_file_view() -> FileInfoView {
    FileInfoView {
        file_path: Seq::empty(),
        package_name: None,
        explicit_imports: Seq::empty(),
        wildcard_imports: Seq::empty(),
        classes: Seq::empty(),
        method_calls: Seq::empty(),
        constructor_calls: Seq::empty(),
        annotations: Seq::empty(),
        variables: Seq::empty(),
    }
}

/// The class with nothing in it: no names, no supertypes and no members, at
/// the unknown position.
pub open spec fn empty_class_view() -> ClassInfoView {
    ClassInfoView {
        simple_name: Seq::empty(),
        fqdn: Seq::empty(),
        extends: None,
        implements: Seq::empty(),
        methods: Seq::empty(),
        fields: Seq::empty(),
        annotations: Seq::empty(),
        is_interface: false,
        is_enum: false,
        position: SourcePosition { line: 0, column: 0, end_line: 0, end_column: 0 },
    }
}

/// A file with nothing in it, to stand in while a file is updated.
fn empty_file_info() -> (r: FileInfo)
    ensures
        r@ == empty_file_view(),
{
    let r = FileInfo {
        file_path: String::new(),
        package_name: None,
        explicit_imports: StrMap::new(),
        wildcard_imports: Vec::new(),
        classes: StrMap::new(),
        method_calls: Vec::new(),
        constructor_calls: Vec::new(),
        annotations: Vec::new(),
        variables: Vec::new(),
    };
    assert(r@.file_path =~= Seq::<char>::empty());
    assert(r@.explicit_imports =~= Seq::empty());
    assert(r@.wildcard_imports =~= Seq::empty());
    assert(r@.classes =~= Seq::empty());
    assert(r@.method_calls =~= Seq::empty());
    assert(r@.constructor_calls =~= Seq::empty());
    assert(r@.annotations =~= Seq::empty());
    assert(r@.variables =~= Seq::empty());
    r
}

/// A class with nothing in it, to stand in while a class is updated.
fn empty_class_info() -> (r: ClassInfo)
    ensures
        r@ == empty_class_view(),
{
    let r = ClassInfo {
        simple_name: String::new(),
        fqdn: String::new(),
        extends: None,
        implements: Vec::new(),
        methods: Vec::new(),
        fields: Vec::new(),
        annotations: Vec::new(),
        is_interface: false,
        is_enum: false,
        position: SourcePosition::unknown(),
    };
    assert(r@.simple_name =~= Seq::<char>::empty());
    assert(r@.fqdn =~= Seq::<char>::empty());
    assert(r@.implements =~= Seq::empty());
    assert(r@.methods =~= Seq::empty());
    assert(r@.fields =~= Seq::empty());
    assert(r@.annotations =~= Seq::empty());
    r
}

impl TypeResolver {
    /// Resolves the qualified names of the annotations on every class,
    /// method and field that have none yet, each in its file (to be called
    /// after the global index).
    pub fn resolve_annotation_fqdns(&mut self)
        ensures
            final(self)@.file_infos == files_with_resolved_annotations(
                old(self)@.global_type_index,
                old(self)@.file_infos,
            ),
            final(self)@.global_type_index == old(self)@.global_type_index,
            final(self)@.inheritance_map == old(self)@.inheritance_map,
            final(self)@.interface_map == old(self)@.interface_map,
    {
        let ghost files = self@.file_infos;
        let ghost index = self@.global_type_index;
        let n = self.file_infos.len();
        for i in 0..n
            invariant
                n == self.file_infos@.len(),
                n == files.len(),
                files == old(self)@.file_infos,
                index == self@.global_type_index,
                index == old(self)@.global_type_index,
                self@.inheritance_map == old(self)@.inheritance_map,
                self@.interface_map == old(self)@.interface_map,
                forall|j: int| 0 <= j < i ==> #[trigger] self@.file_infos[j] == (files[j].0,
                    resolve_file_annotations(index, files[j].1)),
                forall|j: int| i <= j < n ==> #[trigger] self@.file_infos[j] == files[j],
        {
            let ghost before = self.file_infos@;
            assert(self@.file_infos[i as int] == files[i as int]);
            assert(entries_view(before)[i as int] == files[i as int]);
            let mut fi = self.file_infos.replace_value(i, empty_file_info());
            let ghost fv = fi@;
            assert(entries_view(before)[i as int].1 == before[i as int].1@);
            assert(fv == files[i as int].1);
            let names = fi.classes.keys();
            proof {
                lemma_keys_view(fi.classes@);
            }
            let mut classes = StrMap::new();
            std::mem::swap(&mut classes, &mut fi.classes);
            let mut package: Option<String> = None;
            std::mem::swap(&mut package, &mut fi.package_name);
            let mut imports = StrMap::new();
            std::mem::swap(&mut imports, &mut fi.explicit_imports);
            let mut wildcards: Vec<String> = Vec::new();
            std::mem::swap(&mut wildcards, &mut fi.wildcard_imports);
            let ctx = NameContext {
                index: &self.global_type_index,
                package,
                imports,
                class_names: names,
                wildcards,
            };
            assert(ctx.resolves_as(fv));
            let ghost cs = entries_view(classes@);
            let m = classes.len();
            for j in 0..m
                invariant
                    m == classes@.len(),
                    m == cs.len(),
                    ctx.resolves_as(fv),
                    index == list_view(ctx.index@),
                    cs == fv.classes,
                    forall|x: int| 0 <= x < j ==> #[trigger] entries_view(classes@)[x] == (cs[x].0,
                        resolve_class_annotations(index, fv, cs[x].1)),
                    forall|x: int| j <= x < m ==> #[trigger] entries_view(classes@)[x] == cs[x],
            {
                let ghost pre = classes@;
                assert(entries_view(pre)[j as int] == cs[j as int]);
                let mut ci = classes.replace_value(j, empty_class_info());
                assert(ci@ == cs[j as int].1);
                ctx.resolve_class(&mut ci, Ghost(fv));
                let ghost civ = ci;
                classes.replace_value(j, ci);
                assert(classes@ == pre.update(j as int, (pre[j as int].0, civ)));
                assert forall|x: int| 0 <= x < m && x != j implies #[trigger] entries_view(classes@)[x]
                    == entries_view(pre)[x] by {}
                assert(entries_view(classes@)[j as int] == (cs[j as int].0, resolve_class_annotations(
                    index,
                    fv,
                    cs[j as int].1,
                )));
            }
            fi.package_name = ctx.package;
            fi.explicit_imports = ctx.imports;
            fi.wildcard_imports = ctx.wildcards;
            fi.classes = classes;
            assert(fi@ == resolve_file_annotations(index, fv)) by {
                assert(entries_view(fi.classes@) =~= fv.classes.map_values(
                    |p: (Seq<char>, ClassInfoView)| (p.0, resolve_class_annotations(index, fv, p.1)),
                ));
            }
            let ghost fiv = fi;
            let ghost mid = self.file_infos@;
            self.file_infos.replace_value(i, fi);
            assert(self.file_infos@ == mid.update(i as int, (mid[i as int].0, fiv)));
            assert(mid == before.update(i as int, (before[i as int].0, mid[i as int].1)));
            assert forall|x: int| 0 <= x < n && x != i implies #[trigger] self@.file_infos[x]
                == entries_view(before)[x] by {}
            assert(self@.file_infos[i as int] == (files[i as int].0, resolve_file_annotations(
                index,
                files[i as int].1,
            )));
        }
        assert(self@.file_infos =~= files.map_values(
            |p: (Seq<char>, FileInfoView)| (p.0, resolve_file_annotations(index, p.1)),
        ));
    }
}

// ---------------------------------------------------------------------------
// The class hierarchy
// ---------------------------------------------------------------------------

/// The superclass chain of `c` in the superclass map, nearest first, at
/// most `fuel` long.
pub open spec fn parent_chain(m: Seq<(Seq<char>, Seq<char>)>, c: Seq<char>, fuel: nat) -> Seq<
    Seq<char>,
>
    decreases fuel,
{
    if fuel == 0 {
        Seq::empty()
    } else {
        match lookup(m, c) {
            Some(p) => seq![p] + parent_chain(m, p, (fuel - 1) as nat),
            None => Seq::empty(),
        }
    }
}

/// The longest superclass chain reported (a guard against cycles).
pub open spec fn chain_limit() -> nat {
    101
}

/// All superclasses of `c`, nearest first.
pub open spec fn all_parents(r: TypeResolverView, c: Seq<char>) -> Seq<Seq<char>> {
    parent_chain(r.inheritance_map, c, chain_limit())
}

/// Whether a qualified name is the pattern itself or ends with `.pattern`.
pub open spec fn name_matches(name: Seq<char>, pattern: Seq<char>) -> bool {
    name == pattern || ends_with(name, "."@ + pattern)
}

/// Whether some superclass of `c` matches the pattern.
pub open spec fn extends_spec(r: TypeResolverView, c: Seq<char>, pattern: Seq<char>) -> bool {
    exists|i: int| 0 <= i < all_parents(r, c).len() && name_matches(all_parents(r, c)[i], pattern)
}

/// The interfaces recorded for `c` itself.
pub open spec fn interfaces_of(r: TypeResolverView, c: Seq<char>) -> Seq<Seq<char>> {
    match lookup(r.interface_map, c) {
        Some(l) => l,
        None => Seq::empty(),
    }
}

/// The concatenation of a sequence of sequences.
pub open spec fn flat<A>(s: Seq<Seq<A>>) -> Seq<A>
    decreases s.len(),
{
    if s.len() == 0 {
        Seq::empty()
    } else {
        flat(s.drop_last()) + s.last()
    }
}

/// The sequence without repetitions, first occurrences kept in order.
pub open spec fn dedup<A>(s: Seq<A>) -> Seq<A>
    decreases s.len(),
{
    if s.len() == 0 {
        Seq::empty()
    } else {
        let d = dedup(s.drop_last());
        if d.contains(s.last()) {
            d
        } else {
            d.push(s.last())
        }
    }
}

/// The interfaces of `c` and then of each superclass, with repetitions.
pub open spec fn candidate_interfaces(r: TypeResolverView, c: Seq<char>) -> Seq<Seq<char>> {
    interfaces_of(r, c) + flat(all_parents(r, c).map_values(|p: Seq<char>| interfaces_of(r, p)))
}

/// All interfaces of `c`, its own first, then those of its superclasses,
/// each once.
pub open spec fn all_interfaces(r: TypeResolverView, c: Seq<char>) -> Seq<Seq<char>> {
    dedup(candidate_interfaces(r, c))
}

/// Whether some interface of `c` matches the pattern.
pub open spec fn implements_spec(r: TypeResolverView, c: Seq<char>, pattern: Seq<char>) -> bool {
    exists|i: int|
        0 <= i < all_interfaces(r, c).len() && name_matches(all_interfaces(r, c)[i], pattern)
}

fn name_matches_exec(name: &str, pattern: &str) -> (b: bool)
    ensures
        b == name_matches(name@, pattern@),
{
    if str_eq(name, pattern) {
        return true;
    }
    let dotted = concat2(".", pattern);
    ends_with_str(name, dotted.as_str())
}

fn any_matches(names: &Vec<String>, pattern: &str) -> (b: bool)
    ensures
        b == exists|i: int|
            0 <= i < names@.len() && name_matches(string_views(names@)[i], pattern@),
{
    let n = names.len();
    for i in 0..n
        invariant
            n == names@.len(),
            forall|j: int| 0 <= j < i ==> !name_matches(#[trigger] string_views(names@)[j], pattern@),
    {
        if name_matches_exec(names[i].as_str(), pattern) {
            assert(name_matches(string_views(names@)[i as int], pattern@));
            return true;
        }
    }
    false
}

fn add_new(all: &mut Vec<String>, x: &String, Ghost(seen): Ghost<Seq<Seq<char>>>)
    requires
        string_views(old(all)@) == dedup(seen),
    ensures
        string_views(final(all)@) == dedup(seen.push(x@)),
{
    assert(seen.push(x@).drop_last() =~= seen);
    if !list_contains(all, x.as_str()) {
        let ghost before = all@;
        all.push(x.clone());
        assert(string_views(all@) =~= string_views(before).push(x@));
    }
}

impl TypeResolver {
    /// The superclass recorded for a class.
    pub fn get_parent_class(&self, class_fqdn: &str) -> (r: Option<&String>)
        ensures
            match r {
                Some(p) => lookup(self@.inheritance_map, class_fqdn@) == Some(p@),
                None => lookup(self@.inheritance_map, class_fqdn@) is None,
            },
    {
        let found = self.inheritance_map.get(class_fqdn);
        proof {
            lemma_lookup_view(self.inheritance_map@, class_fqdn@);
        }
        found
    }

    /// All superclasses of a class, nearest first (at most 101 of them).
    pub fn get_all_parents(&self, class_fqdn: &str) -> (r: Vec<String>)
        ensures
            string_views(r@) == all_parents(self@, class_fqdn@),
    {
        let ghost m = self@.inheritance_map;
        let mut parents: Vec<String> = Vec::new();
        let mut current = own(class_fqdn);
        assert(string_views(parents@) + parent_chain(m, current@, chain_limit()) =~= parent_chain(
            m,
            class_fqdn@,
            chain_limit(),
        ));
        loop
            invariant_except_break
                parents@.len() <= 100,
            invariant
                m == self@.inheritance_map,
                parents@.len() <= 101,
                string_views(parents@) + parent_chain(m, current@, (chain_limit() - parents@.len()) as nat)
                    == parent_chain(m, class_fqdn@, chain_limit()),
            ensures
                string_views(parents@) == parent_chain(m, class_fqdn@, chain_limit()),
            decreases 100 - parents@.len(),
        {
            let found = self.inheritance_map.get(current.as_str());
            proof {
                lemma_lookup_view(self.inheritance_map@, current@);
            }
            match found {
                None => {
                    assert(string_views(parents@) + Seq::<Seq<char>>::empty() =~= string_views(parents@));
                    break;
                },
                Some(p) => {
                    let ghost before = string_views(parents@);
                    let ghost fuel = (chain_limit() - parents@.len()) as nat;
                    let ghost cur0 = current@;
                    assert(parent_chain(m, cur0, fuel) == seq![p@] + parent_chain(m, p@, (fuel - 1) as nat));
                    let next = p.clone();
                    parents.push(p.clone());
                    current = next;
                    assert(string_views(parents@) =~= before.push(current@));
                    assert(string_views(parents@) + parent_chain(m, current@, (fuel - 1) as nat) =~= before
                        + (seq![current@] + parent_chain(m, current@, (fuel - 1) as nat)));
                    if parents.len() > 100 {
                        assert(string_views(parents@) + Seq::<Seq<char>>::empty() =~= string_views(parents@));
                        break;
                    }
                },
            }
        }
        parents
    }

    /// Whether a class has a superclass (direct or not) that is the pattern
    /// or ends with `.pattern`.
    pub fn extends_class(&self, class_fqdn: &str, parent_pattern: &str) -> (b: bool)
        ensures
            b == extends_spec(self@, class_fqdn@, parent_pattern@),
    {
        let parents = self.get_all_parents(class_fqdn);
        any_matches(&parents, parent_pattern)
    }

    /// The interfaces recorded for a class itself.
    pub fn get_interfaces(&self, class_fqdn: &str) -> (r: Vec<String>)
        ensures
            string_views(r@) == interfaces_of(self@, class_fqdn@),
    {
        let found = self.interface_map.get(class_fqdn);
        proof {
            lemma_lookup_list_view(self.interface_map@, class_fqdn@);
        }
        match found {
            Some(l) => {
                let mut out: Vec<String> = Vec::new();
                let n = l.len();
                for i in 0..n
                    invariant
                        n == l@.len(),
                        string_views(out@) == string_views(l@).take(i as int),
                {
                    let ghost before = out@;
                    let x = l[i].clone();
                    out.push(x);
                    assert(out@ == before.push(l@[i as int]));
                    assert(string_views(out@) =~= string_views(before).push(l@[i as int]@));
                    assert(string_views(l@).take(i + 1) =~= string_views(l@).take(i as int).push(
                        l@[i as int]@,
                    ));
                }
                assert(string_views(l@).take(n as int) =~= string_views(l@));
                out
            },
            None => Vec::new(),
        }
    }

    /// All interfaces of a class, its own first, then those of its
    /// superclasses, each once.
    pub fn get_all_interfaces(&self, class_fqdn: &str) -> (r: Vec<String>)
        ensures
            string_views(r@) == all_interfaces(self@, class_fqdn@),
    {
        let mut all: Vec<String> = Vec::new();
        let direct = self.get_interfaces(class_fqdn);
        let ghost dv = string_views(direct@);
        let ghost mut seen: Seq<Seq<char>> = Seq::empty();
        let n = direct.len();
        assert(string_views(all@) =~= dedup(seen));
        for i in 0..n
            invariant
                n == direct@.len(),
                dv == string_views(direct@),
                seen == dv.take(i as int),
                string_views(all@) == dedup(seen),
        {
            add_new(&mut all, &direct[i], Ghost(seen));
            proof {
                seen = seen.push(direct@[i as int]@);
                assert(seen =~= dv.take(i + 1));
            }
        }
        assert(dv.take(n as int) =~= dv);
        let parents = self.get_all_parents(class_fqdn);
        let ghost pv = string_views(parents@);
        let ghost lists = pv.map_values(|p: Seq<char>| interfaces_of(self@, p));
        let np = parents.len();
        assert(seen =~= dv + flat(lists.take(0)));
        for i in 0..np
            invariant
                np == parents@.len(),
                pv == string_views(parents@),
                lists == pv.map_values(|p: Seq<char>| interfaces_of(self@, p)),
                seen == dv + flat(lists.take(i as int)),
                string_views(all@) == dedup(seen),
        {
            let inner = self.get_interfaces(parents[i].as_str());
            let ghost iv = string_views(inner@);
            assert(iv == lists[i as int]);
            let ghost base = seen;
            let m = inner.len();
            for k in 0..m
                invariant
                    m == inner@.len(),
                    iv == string_views(inner@),
                    seen == base + iv.take(k as int),
                    string_views(all@) == dedup(seen),
            {
                add_new(&mut all, &inner[k], Ghost(seen));
                proof {
                    seen = seen.push(inner@[k as int]@);
                    assert(seen =~= base + iv.take(k + 1));
                }
            }
            proof {
                assert(iv.take(m as int) =~= iv);
                assert(lists.take(i + 1).drop_last() =~= lists.take(i as int));
                assert(seen =~= dv + flat(lists.take(i + 1)));
            }
        }
        assert(lists.take(np as int) =~= lists);
        all
    }

    /// Whether a class has an interface (its own or a superclass's) that is
    /// the pattern or ends with `.pattern`.
    pub fn implements_interface(&self, class_fqdn: &str, interface_pattern: &str) -> (b: bool)
        ensures
            b == implements_spec(self@, class_fqdn@, interface_pattern@),
    {
        let all = self.get_all_interfaces(class_fqdn);
        any_matches(&all, interface_pattern)
    }
}

// ---------------------------------------------------------------------------
// Laws
// ---------------------------------------------------------------------------

proof fn lemma_chain_links(m: Seq<(Seq<char>, Seq<char>)>, c: Seq<char>, fuel: nat)
    ensures
        parent_chain(m, c, fuel).len() <= fuel,
        fuel > 0 && lookup(m, c) is Some ==> parent_chain(m, c, fuel).len() > 0 && parent_chain(
            m,
            c,
            fuel,
        )[0] == lookup(m, c)->0,
        lookup(m, c) is None ==> parent_chain(m, c, fuel).len() == 0,
        forall|i: int|
            0 <= i < parent_chain(m, c, fuel).len() - 1 ==> lookup(m, #[trigger] parent_chain(m, c, fuel)[i])
                == Some(parent_chain(m, c, fuel)[i + 1]),
        0 < parent_chain(m, c, fuel).len() < fuel ==> lookup(m, parent_chain(m, c, fuel).last()) is None,
    decreases fuel,
{
    if fuel > 0 {
        match lookup(m, c) {
            Some(p) => {
                lemma_chain_links(m, p, (fuel - 1) as nat);
                let rest = parent_chain(m, p, (fuel - 1) as nat);
                let whole = parent_chain(m, c, fuel);
                assert(whole == seq![p] + rest);
                assert forall|i: int| 0 <= i < whole.len() - 1 implies lookup(m, #[trigger] whole[i])
                    == Some(whole[i + 1]) by {
                    if i == 0 {
                        if rest.len() > 0 {
                            assert(whole[1] == rest[0]);
                        }
                    } else {
                        assert(whole[i] == rest[i - 1]);
                        assert(whole[i + 1] == rest[i]);
                    }
                }
                if 0 < whole.len() < fuel {
                    if rest.len() > 0 {
                        assert(whole.last() == rest.last());
                    }
                }
            },
            None => {},
        }
    }
}

/// The superclasses of a class form a chain through the superclass map:
/// the first is the class's own superclass, each next one is the superclass
/// of the one before, and the chain ends at a class with no recorded
/// superclass unless it reached the limit of 101.
pub proof fn law_parent_chain(r: TypeResolverView, c: Seq<char>)
    ensures
        all_parents(r, c).len() <= chain_limit(),
        lookup(r.inheritance_map, c) is None <==> all_parents(r, c).len() == 0,
        all_parents(r, c).len() > 0 ==> lookup(r.inheritance_map, c) == Some(all_parents(r, c)[0]),
        forall|i: int|
            0 <= i < all_parents(r, c).len() - 1 ==> lookup(
                r.inheritance_map,
                #[trigger] all_parents(r, c)[i],
            ) == Some(all_parents(r, c)[i + 1]),
        0 < all_parents(r, c).len() < chain_limit() ==> lookup(
            r.inheritance_map,
            all_parents(r, c).last(),
        ) is None,
{
    lemma_chain_links(r.inheritance_map, c, chain_limit());
}

/// A class extends its own superclass, whatever form of its name is asked.
pub proof fn law_extends_direct_parent(r: TypeResolverView, c: Seq<char>, p: Seq<char>)
    requires
        lookup(r.inheritance_map, c) == Some(p),
    ensures
        extends_spec(r, c, p),
{
    lemma_chain_links(r.inheritance_map, c, chain_limit());
    assert(name_matches(all_parents(r, c)[0], p));
}

proof fn lemma_dedup<A>(s: Seq<A>)
    ensures
        forall|x: A| dedup(s).contains(x) <==> s.contains(x),
        forall|i: int, j: int|
            0 <= i < j < dedup(s).len() ==> dedup(s)[i] != dedup(s)[j],
    decreases s.len(),
{
    if s.len() > 0 {
        let t = s.drop_last();
        let y = s.last();
        lemma_dedup(t);
        let d = dedup(t);
        assert forall|x: A| s.contains(x) <==> (t.contains(x) || x == y) by {
            if s.contains(x) {
                let k = choose|k: int| 0 <= k < s.len() && s[k] == x;
                if k < s.len() - 1 {
                    assert(t[k] == x);
                }
            }
            if t.contains(x) {
                let k = choose|k: int| 0 <= k < t.len() && t[k] == x;
                assert(s[k] == t[k]);
            }
            if x == y {
                assert(s[s.len() - 1] == x);
            }
        }
        assert forall|x: A| d.push(y).contains(x) <==> (d.contains(x) || x == y) by {
            if d.push(y).contains(x) {
                let k = choose|k: int| 0 <= k < d.push(y).len() && d.push(y)[k] == x;
                if k < d.len() {
                    assert(d[k] == x);
                }
            }
            if d.contains(x) {
                let k = choose|k: int| 0 <= k < d.len() && d[k] == x;
                assert(d.push(y)[k] == x);
            }
            if x == y {
                assert(d.push(y)[d.len() as int] == x);
            }
        }
    }
}

proof fn lemma_flat_contains<A>(s: Seq<Seq<A>>, x: A)
    ensures
        flat(s).contains(x) <==> exists|i: int| 0 <= i < s.len() && #[trigger] s[i].contains(x),
    decreases s.len(),
{
    if s.len() > 0 {
        lemma_flat_contains(s.drop_last(), x);
        let f = flat(s.drop_last());
        let l = s.last();
        assert(flat(s) == f + l);
        if flat(s).contains(x) {
            let k = choose|k: int| 0 <= k < flat(s).len() && flat(s)[k] == x;
            if k < f.len() {
                assert(f[k] == x);
                assert(f.contains(x));
                let i = choose|i: int| 0 <= i < s.drop_last().len() && #[trigger] s.drop_last()[i].contains(x);
                assert(s[i] == s.drop_last()[i]);
            } else {
                assert(l[k - f.len()] == x);
                assert(s[s.len() - 1].contains(x));
            }
        }
        if exists|i: int| 0 <= i < s.len() && #[trigger] s[i].contains(x) {
            let i = choose|i: int| 0 <= i < s.len() && #[trigger] s[i].contains(x);
            if i < s.len() - 1 {
                assert(s.drop_last()[i] == s[i]);
                assert(f.contains(x));
                let k = choose|k: int| 0 <= k < f.len() && f[k] == x;
                assert(flat(s)[k] == x);
            } else {
                let k = choose|k: int| 0 <= k < l.len() && l[k] == x;
                assert(flat(s)[f.len() + k] == x);
            }
        }
    }
}

/// All interfaces of a class are listed once each, and they are exactly
/// the class's own interfaces and those of its superclasses.
pub proof fn law_all_interfaces(r: TypeResolverView, c: Seq<char>, x: Seq<char>)
    ensures
        forall|i: int, j: int|
            0 <= i < j < all_interfaces(r, c).len() ==> all_interfaces(r, c)[i] != all_interfaces(
                r,
                c,
            )[j],
        all_interfaces(r, c).contains(x) <==> (interfaces_of(r, c).contains(x) || exists|i: int|
            0 <= i < all_parents(r, c).len() && #[trigger] interfaces_of(
                r,
                all_parents(r, c)[i],
            ).contains(x)),
{
    let cands = candidate_interfaces(r, c);
    lemma_dedup(cands);
    let lists = all_parents(r, c).map_values(|p: Seq<char>| interfaces_of(r, p));
    lemma_flat_contains(lists, x);
    let own = interfaces_of(r, c);
    let f = flat(lists);
    if cands.contains(x) {
        let k = choose|k: int| 0 <= k < cands.len() && cands[k] == x;
        if k < own.len() {
            assert(own[k] == x);
        } else {
            assert(f[k - own.len()] == x);
            assert(f.contains(x));
            let i = choose|i: int| 0 <= i < lists.len() && #[trigger] lists[i].contains(x);
            assert(lists[i] == interfaces_of(r, all_parents(r, c)[i]));
        }
    }
    if own.contains(x) {
        let k = choose|k: int| 0 <= k < own.len() && own[k] == x;
        assert(cands[k] == x);
    }
    if exists|i: int|
        0 <= i < all_parents(r, c).len() && #[trigger] interfaces_of(r, all_parents(r, c)[i]).contains(
            x,
        ) {
        let i = choose|i: int|
            0 <= i < all_parents(r, c).len() && #[trigger] interfaces_of(r, all_parents(r, c)[i]).contains(
                x,
            );
        assert(lists[i] == interfaces_of(r, all_parents(r, c)[i]));
        assert(f.contains(x));
        let k = choose|k: int| 0 <= k < f.len() && f[k] == x;
        assert(cands[own.len() + k] == x);
    }
}

/// A class implements each of its own interfaces, whatever form of the
/// name is asked.
pub proof fn law_implements_own_interface(r: TypeResolverView, c: Seq<char>, x: Seq<char>)
    requires
        interfaces_of(r, c).contains(x),
    ensures
        implements_spec(r, c, x),
{
    law_all_interfaces(r, c, x);
    let k = choose|k: int| 0 <= k < all_interfaces(r, c).len() && all_interfaces(r, c)[k] == x;
    assert(name_matches(all_interfaces(r, c)[k], x));
}

/// A primitive type name resolves to itself in any analysed file.
pub proof fn law_primitive_resolves_to_itself(r: TypeResolverView, name: Seq<char>, path: Seq<char>)
    requires
        primitive_names().contains(name),
        lookup(r.file_infos, path) is Some,
    ensures
        resolved_name(r, name, path) == Some(name),
{
}

proof fn lemma_lookup_insert(e: Seq<(Seq<char>, Seq<Seq<char>>)>, k: Seq<char>, v: Seq<Seq<char>>, q: Seq<char>)
    requires
        keys_distinct(e),
    ensures
        keys_distinct(insert_entry(e, k, v)),
        lookup(insert_entry(e, k, v), q) == if q == k {
            Some(v)
        } else {
            lookup(e, q)
        },
{
    crate::strmap::lemma_insert_distinct(e, k, v);
    let e2 = insert_entry(e, k, v);
    if exists|i: int| 0 <= i < e.len() && e[i].0 == k {
        let i = choose|i: int| 0 <= i < e.len() && e[i].0 == k;
        assert(e2 == e.update(i, (k, v)));
        if q == k {
            assert(e2[i].0 == k);
            let w = choose|w: int| 0 <= w < e2.len() && e2[w].0 == k;
            assert(w == i);
        } else {
            if exists|j: int| 0 <= j < e.len() && e[j].0 == q {
                let j = choose|j: int| 0 <= j < e.len() && e[j].0 == q;
                assert(e2[j].0 == q);
                let w = choose|w: int| 0 <= w < e2.len() && e2[w].0 == q;
                assert(w == j);
            } else {
                assert forall|j: int| 0 <= j < e2.len() implies e2[j].0 != q by {
                    if j != i {
                        assert(e2[j] == e[j]);
                    }
                }
            }
        }
    } else {
        assert(e2 == e.push((k, v)));
        if q == k {
            assert(e2[e.len() as int].0 == k);
            let w = choose|w: int| 0 <= w < e2.len() && e2[w].0 == k;
            assert(w == e.len());
        } else {
            if exists|j: int| 0 <= j < e.len() && e[j].0 == q {
                let j = choose|j: int| 0 <= j < e.len() && e[j].0 == q;
                assert(e2[j].0 == q);
                let w = choose|w: int| 0 <= w < e2.len() && e2[w].0 == q;
                assert(w == j);
            } else {
                assert forall|j: int| 0 <= j < e2.len() implies e2[j].0 != q by {
                    if j < e.len() {
                        assert(e2[j] == e[j]);
                    }
                }
            }
        }
    }
}

proof fn lemma_index_classes_distinct(
    idx: Seq<(Seq<char>, Seq<Seq<char>>)>,
    classes: Seq<(Seq<char>, ClassInfoView)>,
)
    requires
        keys_distinct(idx),
    ensures
        keys_distinct(index_classes(idx, classes)),
    decreases classes.len(),
{
    if classes.len() > 0 {
        lemma_index_classes_distinct(idx, classes.drop_last());
        let prev = index_classes(idx, classes.drop_last());
        let c = classes.last().1;
        crate::strmap::lemma_insert_distinct(
            prev,
            c.simple_name,
            match lookup(prev, c.simple_name) {
                Some(l) => l.push(c.fqdn),
                None => seq![c.fqdn],
            },
        );
    }
}

proof fn lemma_index_files_distinct(files: Seq<(Seq<char>, FileInfoView)>)
    ensures
        keys_distinct(index_files(files)),
    decreases files.len(),
{
    if files.len() > 0 {
        lemma_index_files_distinct(files.drop_last());
        lemma_index_classes_distinct(index_files(files.drop_last()), files.last().1.classes);
    }
}

proof fn lemma_append_keeps(
    idx: Seq<(Seq<char>, Seq<Seq<char>>)>,
    k: Seq<char>,
    v: Seq<char>,
    name: Seq<char>,
    q: Seq<char>,
)
    requires
        keys_distinct(idx),
    ensures
        index_lists(idx, name, q) ==> index_lists(list_append(idx, k, v), name, q),
        index_lists(list_append(idx, k, v), k, v),
{
    let l2 = match lookup(idx, k) {
        Some(l) => l.push(v),
        None => seq![v],
    };
    lemma_lookup_insert(idx, k, l2, name);
    lemma_lookup_insert(idx, k, l2, k);
    assert(l2[l2.len() - 1] == v);
    if index_lists(idx, name, q) && name == k {
        let l = lookup(idx, name)->0;
        let j = choose|j: int| 0 <= j < l.len() && l[j] == q;
        assert(l2[j] == q);
    }
}

proof fn lemma_index_classes_keeps(
    idx: Seq<(Seq<char>, Seq<Seq<char>>)>,
    classes: Seq<(Seq<char>, ClassInfoView)>,
    name: Seq<char>,
    q: Seq<char>,
)
    requires
        keys_distinct(idx),
        index_lists(idx, name, q),
    ensures
        index_lists(index_classes(idx, classes), name, q),
    decreases classes.len(),
{
    if classes.len() > 0 {
        lemma_index_classes_keeps(idx, classes.drop_last(), name, q);
        lemma_index_classes_distinct(idx, classes.drop_last());
        let c = classes.last().1;
        lemma_append_keeps(index_classes(idx, classes.drop_last()), c.simple_name, c.fqdn, name, q);
    }
}

proof fn lemma_index_classes_lists(
    idx: Seq<(Seq<char>, Seq<Seq<char>>)>,
    classes: Seq<(Seq<char>, ClassInfoView)>,
    j: int,
)
    requires
        keys_distinct(idx),
        0 <= j < classes.len(),
    ensures
        index_lists(index_classes(idx, classes), classes[j].1.simple_name, classes[j].1.fqdn),
    decreases classes.len(),
{
    let prev = index_classes(idx, classes.drop_last());
    let c = classes.last().1;
    lemma_index_classes_distinct(idx, classes.drop_last());
    if j == classes.len() - 1 {
        lemma_append_keeps(prev, c.simple_name, c.fqdn, c.simple_name, c.fqdn);
    } else {
        lemma_index_classes_lists(idx, classes.drop_last(), j);
        assert(classes.drop_last()[j] == classes[j]);
        lemma_append_keeps(prev, c.simple_name, c.fqdn, classes[j].1.simple_name, classes[j].1.fqdn);
    }
}

/// After the global index is built, every class of every analysed file is
/// listed under its simple name with its qualified name.
pub proof fn law_global_index_lists_every_class(files: Seq<(Seq<char>, FileInfoView)>, i: int, j: int)
    requires
        0 <= i < files.len(),
        0 <= j < files[i].1.classes.len(),
    ensures
        index_lists(
            index_files(files),
            files[i].1.classes[j].1.simple_name,
            files[i].1.classes[j].1.fqdn,
        ),
    decreases files.len(),
{
    let prev = index_files(files.drop_last());
    lemma_index_files_distinct(files.drop_last());
    if i == files.len() - 1 {
        lemma_index_classes_lists(prev, files.last().1.classes, j);
    } else {
        law_global_index_lists_every_class(files.drop_last(), i, j);
        assert(files.drop_last()[i] == files[i]);
        lemma_index_classes_keeps(
            prev,
            files.last().1.classes,
            files[i].1.classes[j].1.simple_name,
            files[i].1.classes[j].1.fqdn,
        );
    }
}

/// Whether some class of the files has the given simple and qualified
/// names.
pub open spec fn class_in_files(files: Seq<(Seq<char>, FileInfoView)>, name: Seq<char>, q: Seq<char>) -> bool {
    exists|i: int, j: int|
        #![trigger files[i].1.classes[j]]
        0 <= i < files.len() && 0 <= j < files[i].1.classes.len() && files[i].1.classes[j].1.simple_name == name
            && files[i].1.classes[j].1.fqdn == q
}

/// Whether some class of the list has the given simple and qualified names.
pub open spec fn class_in_list(classes: Seq<(Seq<char>, ClassInfoView)>, name: Seq<char>, q: Seq<char>) -> bool {
    exists|j: int| 0 <= j < classes.len() && #[trigger] classes[j].1.simple_name == name && classes[j].1.fqdn == q
}

proof fn lemma_append_only(
    idx: Seq<(Seq<char>, Seq<Seq<char>>)>,
    k: Seq<char>,
    v: Seq<char>,
    name: Seq<char>,
    q: Seq<char>,
)
    requires
        keys_distinct(idx),
    ensures
        index_lists(list_append(idx, k, v), name, q) ==> index_lists(idx, name, q) || (name == k && q == v),
        lookup(list_append(idx, k, v), name) matches Some(l) ==> (l.len() > 0 || lookup(idx, name) == Some(l)),
{
    let l2 = match lookup(idx, k) {
        Some(l) => l.push(v),
        None => seq![v],
    };
    lemma_lookup_insert(idx, k, l2, name);
    if index_lists(list_append(idx, k, v), name, q) && name == k && q != v {
        let j = choose|j: int| 0 <= j < l2.len() && l2[j] == q;
        match lookup(idx, k) {
            Some(l) => {
                assert(j < l.len());
                assert(l[j] == q);
            },
            None => {},
        }
    }
}

proof fn lemma_index_classes_only(
    idx: Seq<(Seq<char>, Seq<Seq<char>>)>,
    classes: Seq<(Seq<char>, ClassInfoView)>,
    name: Seq<char>,
    q: Seq<char>,
)
    requires
        keys_distinct(idx),
    ensures
        index_lists(index_classes(idx, classes), name, q) ==> index_lists(idx, name, q) || class_in_list(classes, name, q),
    decreases classes.len(),
{
    if classes.len() > 0 {
        let prev = index_classes(idx, classes.drop_last());
        let c = classes.last().1;
        lemma_index_classes_only(idx, classes.drop_last(), name, q);
        lemma_index_classes_distinct(idx, classes.drop_last());
        lemma_append_only(prev, c.simple_name, c.fqdn, name, q);
        if class_in_list(classes.drop_last(), name, q) {
            let j = choose|j: int|
                0 <= j < classes.drop_last().len() && #[trigger] classes.drop_last()[j].1.simple_name == name
                    && classes.drop_last()[j].1.fqdn == q;
            assert(classes[j] == classes.drop_last()[j]);
        }
        if name == c.simple_name && q == c.fqdn {
            assert(classes[classes.len() - 1].1.simple_name == name);
        }
    }
}

proof fn lemma_index_files_only(files: Seq<(Seq<char>, FileInfoView)>, name: Seq<char>, q: Seq<char>)
    ensures
        index_lists(index_files(files), name, q) ==> class_in_files(files, name, q),
    decreases files.len(),
{
    if files.len() > 0 {
        let prev = index_files(files.drop_last());
        let cs = files.last().1.classes;
        lemma_index_files_only(files.drop_last(), name, q);
        lemma_index_files_distinct(files.drop_last());
        lemma_index_classes_only(prev, cs, name, q);
        if class_in_files(files.drop_last(), name, q) {
            let (i, j) = choose|i: int, j: int|
                #![trigger files.drop_last()[i].1.classes[j]]
                0 <= i < files.drop_last().len() && 0 <= j < files.drop_last()[i].1.classes.len()
                    && files.drop_last()[i].1.classes[j].1.simple_name == name
                    && files.drop_last()[i].1.classes[j].1.fqdn == q;
            assert(files[i] == files.drop_last()[i]);
            assert(files[i].1.classes[j].1.simple_name == name);
        }
        if class_in_list(cs, name, q) {
            let j = choose|j: int| 0 <= j < cs.len() && #[trigger] cs[j].1.simple_name == name && cs[j].1.fqdn == q;
            let i = files.len() - 1;
            assert(files[i].1.classes[j].1.simple_name == name);
        }
    } else {
        assert(lookup(index_files(files), name) is None);
    }
}

proof fn lemma_index_classes_nonempty(
    idx: Seq<(Seq<char>, Seq<Seq<char>>)>,
    classes: Seq<(Seq<char>, ClassInfoView)>,
    name: Seq<char>,
)
    requires
        keys_distinct(idx),
        lookup(idx, name) matches Some(l) ==> l.len() > 0,
    ensures
        lookup(index_classes(idx, classes), name) matches Some(l) ==> l.len() > 0,
    decreases classes.len(),
{
    if classes.len() > 0 {
        let c = classes.last().1;
        lemma_index_classes_nonempty(idx, classes.drop_last(), name);
        lemma_index_classes_distinct(idx, classes.drop_last());
        lemma_append_only(index_classes(idx, classes.drop_last()), c.simple_name, c.fqdn, name, c.fqdn);
    }
}

proof fn lemma_index_files_nonempty(files: Seq<(Seq<char>, FileInfoView)>, name: Seq<char>)
    ensures
        lookup(index_files(files), name) matches Some(l) ==> l.len() > 0,
    decreases files.len(),
{
    if files.len() > 0 {
        lemma_index_files_nonempty(files.drop_last(), name);
        lemma_index_files_distinct(files.drop_last());
        lemma_index_classes_nonempty(index_files(files.drop_last()), files.last().1.classes, name);
    }
}

/// The global index lists a qualified name under a simple name exactly
/// when some class of the analysed files has those two names, and it has
/// an entry for a simple name only when some class has that name (the
/// first name listed being one such class's).
pub proof fn law_global_index_exact(files: Seq<(Seq<char>, FileInfoView)>, name: Seq<char>, q: Seq<char>)
    ensures
        index_lists(index_files(files), name, q) <==> class_in_files(files, name, q),
        lookup(index_files(files), name) matches Some(l) ==> l.len() > 0 && class_in_files(files, name, l[0]),
{
    lemma_index_files_only(files, name, q);
    lemma_index_files_nonempty(files, name);
    if lookup(index_files(files), name) is Some {
        let l = lookup(index_files(files), name)->0;
        assert(l.contains(l[0]));
        lemma_index_files_only(files, name, l[0]);
    }
    if class_in_files(files, name, q) {
        let (i, j) = choose|i: int, j: int|
            #![trigger files[i].1.classes[j]]
            0 <= i < files.len() && 0 <= j < files[i].1.classes.len() && files[i].1.classes[j].1.simple_name == name
                && files[i].1.classes[j].1.fqdn == q;
        law_global_index_lists_every_class(files, i, j);
    }
}

/// Building the global index again gives the same index: it is made from
/// the files alone, which building it leaves unchanged.
pub proof fn law_global_index_rebuild(r: TypeResolverView)
    ensures
        ({
            let once = TypeResolverView { global_type_index: index_files(r.file_infos), ..r };
            let twice = TypeResolverView { global_type_index: index_files(once.file_infos), ..once };
            twice == once
        }),
{
}

/// Whether the index lists `name` in package `w`.
pub open spec fn listed_in_package(index: Seq<(Seq<char>, Seq<Seq<char>>)>, name: Seq<char>, w: Seq<char>) -> bool {
    index_lists(index, name, w + "."@ + name)
}

/// A name imported by wildcard resolves into the first wildcard-imported
/// package, in import order, in which the index lists it; it resolves to
/// nothing when the index lists it in none of them.
pub proof fn law_wildcard_first_listed(
    index: Seq<(Seq<char>, Seq<Seq<char>>)>,
    ws: Seq<Seq<char>>,
    name: Seq<char>,
)
    ensures
        match wildcard_candidate(index, ws, name) {
            Some(c) => exists|k: int|
                0 <= k < ws.len() && c == ws[k] + "."@ + name && listed_in_package(index, name, ws[k]) && (forall|
                    m: int,
                | 0 <= m < k ==> !listed_in_package(index, name, #[trigger] ws[m])),
            None => forall|k: int| 0 <= k < ws.len() ==> !listed_in_package(index, name, #[trigger] ws[k]),
        },
    decreases ws.len(),
{
    if ws.len() > 0 {
        law_wildcard_first_listed(index, ws.drop_first(), name);
        let rest = ws.drop_first();
        if listed_in_package(index, name, ws[0]) {
            assert(wildcard_candidate(index, ws, name) == Some(ws[0] + "."@ + name));
        } else {
            match wildcard_candidate(index, rest, name) {
                Some(c) => {
                    let k = choose|k: int|
                        0 <= k < rest.len() && c == rest[k] + "."@ + name && listed_in_package(index, name, rest[k])
                            && (forall|m: int| 0 <= m < k ==> !listed_in_package(index, name, #[trigger] rest[m]));
                    assert(ws[k + 1] == rest[k]);
                    assert forall|m: int| 0 <= m < k + 1 implies !listed_in_package(index, name, #[trigger] ws[m]) by {
                        if m > 0 {
                            assert(ws[m] == rest[m - 1]);
                        }
                    }
                },
                None => {
                    assert forall|k: int| 0 <= k < ws.len() implies !listed_in_package(index, name, #[trigger] ws[k]) by {
                        if k > 0 {
                            assert(ws[k] == rest[k - 1]);
                        }
                    }
                },
            }
        }
    }
}

/// The files with the annotations of each resolved, as
/// `resolve_annotation_fqdns` leaves them.
pub open spec fn files_with_resolved_annotations(
    index: Seq<(Seq<char>, Seq<Seq<char>>)>,
    files: Seq<(Seq<char>, FileInfoView)>,
) -> Seq<(Seq<char>, FileInfoView)> {
    files.map_values(|p: (Seq<char>, FileInfoView)| (p.0, resolve_file_annotations(index, p.1)))
}

proof fn lemma_resolution_keeps_context(index: Seq<(Seq<char>, Seq<Seq<char>>)>, fi: FileInfoView, n: Seq<char>)
    ensures
        resolve_in_file(index, resolve_file_annotations(index, fi), n) == resolve_in_file(index, fi, n),
{
    let fi2 = resolve_file_annotations(index, fi);
    assert(keys_of(fi2.classes) =~= keys_of(fi.classes));
}

proof fn lemma_annotations_idempotent(
    index: Seq<(Seq<char>, Seq<Seq<char>>)>,
    fi: FileInfoView,
    s: Seq<AnnotationInfoView>,
)
    ensures
        resolve_annotations(index, resolve_file_annotations(index, fi), resolve_annotations(index, fi, s))
            == resolve_annotations(index, fi, s),
{
    let fi2 = resolve_file_annotations(index, fi);
    let once = resolve_annotations(index, fi, s);
    assert forall|k: int| 0 <= k < once.len() implies #[trigger] resolve_annotation(index, fi2, once[k]) == once[k] by {
        lemma_resolution_keeps_context(index, fi, s[k].name);
    }
    assert(resolve_annotations(index, fi2, once) =~= once);
}

proof fn lemma_class_idempotent(index: Seq<(Seq<char>, Seq<Seq<char>>)>, fi: FileInfoView, c: ClassInfoView)
    ensures
        resolve_class_annotations(index, resolve_file_annotations(index, fi), resolve_class_annotations(index, fi, c))
            == resolve_class_annotations(index, fi, c),
{
    let fi2 = resolve_file_annotations(index, fi);
    let once = resolve_class_annotations(index, fi, c);
    let twice = resolve_class_annotations(index, fi2, once);
    lemma_annotations_idempotent(index, fi, c.annotations);
    assert forall|k: int| 0 <= k < once.methods.len() implies #[trigger] twice.methods[k] == once.methods[k] by {
        lemma_annotations_idempotent(index, fi, c.methods[k].annotations);
    }
    assert forall|k: int| 0 <= k < once.fields.len() implies #[trigger] twice.fields[k] == once.fields[k] by {
        lemma_annotations_idempotent(index, fi, c.fields[k].annotations);
    }
    assert(twice.methods =~= once.methods);
    assert(twice.fields =~= once.fields);
}

proof fn lemma_file_idempotent(index: Seq<(Seq<char>, Seq<Seq<char>>)>, fi: FileInfoView)
    ensures
        resolve_file_annotations(index, resolve_file_annotations(index, fi)) == resolve_file_annotations(index, fi),
{
    let once = resolve_file_annotations(index, fi);
    let twice = resolve_file_annotations(index, once);
    assert forall|k: int| 0 <= k < once.classes.len() implies #[trigger] twice.classes[k] == once.classes[k] by {
        lemma_class_idempotent(index, fi, fi.classes[k].1);
    }
    assert(twice.classes =~= once.classes);
}

/// Resolving annotation names changes only the qualified name of an
/// annotation that has none (to the resolution of its name in its file),
/// and resolving a second time with the same index changes nothing.
pub proof fn law_annotation_resolution(
    index: Seq<(Seq<char>, Seq<Seq<char>>)>,
    files: Seq<(Seq<char>, FileInfoView)>,
    fi: FileInfoView,
    a: AnnotationInfoView,
)
    ensures
        resolve_annotation(index, fi, a) == (AnnotationInfoView {
            fqdn: if a.fqdn is None {
                resolve_in_file(index, fi, a.name)
            } else {
                a.fqdn
            },
            ..a
        }),
        files_with_resolved_annotations(index, files_with_resolved_annotations(index, files))
            == files_with_resolved_annotations(index, files),
{
    let once = files_with_resolved_annotations(index, files);
    let twice = files_with_resolved_annotations(index, once);
    assert forall|k: int| 0 <= k < once.len() implies #[trigger] twice[k] == once[k] by {
        lemma_file_idempotent(index, files[k].1);
    }
    assert(twice =~= once);
}

/// The superclass map's entry for a class: its superclass, resolved in its
/// file.
pub open spec fn superclass_entry(index: Seq<(Seq<char>, Seq<Seq<char>>)>, fi: FileInfoView, c: ClassInfoView) -> Option<
    Seq<char>,
> {
    match c.extends {
        Some(p) => resolve_in_file(index, fi, p),
        None => None,
    }
}

/// The interface map's entry for a class: the interfaces that resolve in
/// its file, in order, when there are any.
pub open spec fn interfaces_entry(index: Seq<(Seq<char>, Seq<Seq<char>>)>, fi: FileInfoView, c: ClassInfoView) -> Option<
    Seq<Seq<char>>,
> {
    let l = resolved_list(index, fi, c.implements);
    if l.len() > 0 {
        Some(l)
    } else {
        None
    }
}

/// Whether no two classes of the files share a qualified name.
pub open spec fn fqdns_unique(files: Seq<(Seq<char>, FileInfoView)>) -> bool {
    forall|i1: int, j1: int, i2: int, j2: int|
        #![trigger files[i1].1.classes[j1], files[i2].1.classes[j2]]
        0 <= i1 < files.len() && 0 <= j1 < files[i1].1.classes.len() && 0 <= i2 < files.len() && 0 <= j2
            < files[i2].1.classes.len() && (i1 != i2 || j1 != j2) ==> files[i1].1.classes[j1].1.fqdn
            != files[i2].1.classes[j2].1.fqdn
}

proof fn lemma_hierarchy_class_lookup(
    index: Seq<(Seq<char>, Seq<Seq<char>>)>,
    fi: FileInfoView,
    maps: HierarchyMaps,
    c: ClassInfoView,
    f: Seq<char>,
)
    requires
        keys_distinct(maps.0),
        keys_distinct(maps.1),
    ensures
        keys_distinct(hierarchy_class(index, fi, maps, c).0),
        keys_distinct(hierarchy_class(index, fi, maps, c).1),
        f != c.fqdn ==> lookup(hierarchy_class(index, fi, maps, c).0, f) == lookup(maps.0, f)
            && lookup(hierarchy_class(index, fi, maps, c).1, f) == lookup(maps.1, f),
        f == c.fqdn && lookup(maps.0, f) is None && lookup(maps.1, f) is None ==> lookup(
            hierarchy_class(index, fi, maps, c).0,
            f,
        ) == superclass_entry(index, fi, c) && lookup(hierarchy_class(index, fi, maps, c).1, f)
            == interfaces_entry(index, fi, c),
{
    let res = hierarchy_class(index, fi, maps, c);
    match superclass_entry(index, fi, c) {
        Some(q) => {
            crate::strmap::lemma_insert_distinct(maps.0, c.fqdn, q);
            if f != c.fqdn {
                crate::strmap::law_insert_then_lookup(maps.0, c.fqdn, q, f);
            } else {
                assert(c.fqdn.push('x').len() != c.fqdn.len());
                crate::strmap::law_insert_then_lookup(maps.0, c.fqdn, q, c.fqdn.push('x'));
            }
        },
        None => {},
    }
    match interfaces_entry(index, fi, c) {
        Some(l) => {
            crate::strmap::lemma_insert_distinct(maps.1, c.fqdn, l);
            if f != c.fqdn {
                crate::strmap::law_insert_then_lookup(maps.1, c.fqdn, l, f);
            } else {
                assert(c.fqdn.push('x').len() != c.fqdn.len());
                crate::strmap::law_insert_then_lookup(maps.1, c.fqdn, l, c.fqdn.push('x'));
            }
        },
        None => {},
    }
}

proof fn lemma_hierarchy_classes_other(
    index: Seq<(Seq<char>, Seq<Seq<char>>)>,
    fi: FileInfoView,
    maps: HierarchyMaps,
    classes: Seq<(Seq<char>, ClassInfoView)>,
    f: Seq<char>,
)
    requires
        keys_distinct(maps.0),
        keys_distinct(maps.1),
    ensures
        keys_distinct(hierarchy_classes(index, fi, maps, classes).0),
        keys_distinct(hierarchy_classes(index, fi, maps, classes).1),
        (forall|j: int| 0 <= j < classes.len() ==> (#[trigger] classes[j]).1.fqdn != f) ==> lookup(
            hierarchy_classes(index, fi, maps, classes).0,
            f,
        ) == lookup(maps.0, f) && lookup(hierarchy_classes(index, fi, maps, classes).1, f) == lookup(maps.1, f),
    decreases classes.len(),
{
    if classes.len() > 0 {
        let prev = hierarchy_classes(index, fi, maps, classes.drop_last());
        lemma_hierarchy_classes_other(index, fi, maps, classes.drop_last(), f);
        lemma_hierarchy_class_lookup(index, fi, prev, classes.last().1, f);
        if forall|j: int| 0 <= j < classes.len() ==> (#[trigger] classes[j]).1.fqdn != f {
            assert forall|j: int| 0 <= j < classes.drop_last().len() implies (#[trigger] classes.drop_last()[j]).1.fqdn
                != f by {
                assert(classes.drop_last()[j] == classes[j]);
            }
            assert(classes[classes.len() - 1].1.fqdn != f);
        }
    }
}

proof fn lemma_hierarchy_classes_own(
    index: Seq<(Seq<char>, Seq<Seq<char>>)>,
    fi: FileInfoView,
    maps: HierarchyMaps,
    classes: Seq<(Seq<char>, ClassInfoView)>,
    j: int,
)
    requires
        keys_distinct(maps.0),
        keys_distinct(maps.1),
        0 <= j < classes.len(),
        forall|a: int, b: int|
            0 <= a < classes.len() && 0 <= b < classes.len() && a != b ==> (#[trigger] classes[a]).1.fqdn
                != (#[trigger] classes[b]).1.fqdn,
        lookup(maps.0, classes[j].1.fqdn) is None,
        lookup(maps.1, classes[j].1.fqdn) is None,
    ensures
        lookup(hierarchy_classes(index, fi, maps, classes).0, classes[j].1.fqdn) == superclass_entry(
            index,
            fi,
            classes[j].1,
        ),
        lookup(hierarchy_classes(index, fi, maps, classes).1, classes[j].1.fqdn) == interfaces_entry(
            index,
            fi,
            classes[j].1,
        ),
    decreases classes.len(),
{
    let f = classes[j].1.fqdn;
    let rest = classes.drop_last();
    let prev = hierarchy_classes(index, fi, maps, rest);
    lemma_hierarchy_classes_other(index, fi, maps, rest, f);
    let last = classes.len() - 1;
    if j == last {
        assert forall|m: int| 0 <= m < rest.len() implies (#[trigger] rest[m]).1.fqdn != f by {
            assert(rest[m] == classes[m]);
            assert(classes[m].1.fqdn != classes[last].1.fqdn);
        }
        lemma_hierarchy_class_lookup(index, fi, prev, classes.last().1, f);
    } else {
        assert(rest[j] == classes[j]);
        assert forall|a: int, b: int|
            0 <= a < rest.len() && 0 <= b < rest.len() && a != b implies (#[trigger] rest[a]).1.fqdn
                != (#[trigger] rest[b]).1.fqdn by {
            assert(rest[a] == classes[a]);
            assert(rest[b] == classes[b]);
        }
        lemma_hierarchy_classes_own(index, fi, maps, rest, j);
        assert(classes[last].1.fqdn != classes[j].1.fqdn);
        lemma_hierarchy_class_lookup(index, fi, prev, classes.last().1, f);
    }
}

proof fn lemma_hierarchy_files(
    index: Seq<(Seq<char>, Seq<Seq<char>>)>,
    files: Seq<(Seq<char>, FileInfoView)>,
    i: int,
    j: int,
    f: Seq<char>,
)
    requires
        fqdns_unique(files),
    ensures
        keys_distinct(hierarchy_files(index, files).0),
        keys_distinct(hierarchy_files(index, files).1),
        0 <= i < files.len() && 0 <= j < files[i].1.classes.len() ==> lookup(
            hierarchy_files(index, files).0,
            files[i].1.classes[j].1.fqdn,
        ) == superclass_entry(index, files[i].1, files[i].1.classes[j].1) && lookup(
            hierarchy_files(index, files).1,
            files[i].1.classes[j].1.fqdn,
        ) == interfaces_entry(index, files[i].1, files[i].1.classes[j].1),
        !class_fqdn_in_files(files, f) ==> lookup(hierarchy_files(index, files).0, f) is None && lookup(
            hierarchy_files(index, files).1,
            f,
        ) is None,
    decreases files.len(),
{
    if files.len() > 0 {
        let rest = files.drop_last();
        let last = files.len() - 1;
        let fi = files.last().1;
        let prev = hierarchy_files(index, rest);
        assert forall|i1: int, j1: int, i2: int, j2: int|
            0 <= i1 < rest.len() && 0 <= j1 < rest[i1].1.classes.len() && 0 <= i2 < rest.len() && 0 <= j2
                < rest[i2].1.classes.len() && (i1 != i2 || j1 != j2) implies #[trigger] rest[i1].1.classes[j1].1.fqdn
                != #[trigger] rest[i2].1.classes[j2].1.fqdn by {
            assert(rest[i1] == files[i1]);
            assert(rest[i2] == files[i2]);
            assert(files[i1].1.classes[j1].1.fqdn != files[i2].1.classes[j2].1.fqdn);
        }
        assert(fqdns_unique(rest));
        // the classes of the last file, by fqdn, are new to the maps so far
        let g = if 0 <= i < last && 0 <= j < files[i].1.classes.len() {
            files[i].1.classes[j].1.fqdn
        } else {
            f
        };
        lemma_hierarchy_files(index, rest, i, j, g);
        lemma_hierarchy_classes_other(index, fi, prev, fi.classes, g);
        if 0 <= i < last && 0 <= j < files[i].1.classes.len() {
            assert(rest[i] == files[i]);
            assert forall|m: int| 0 <= m < fi.classes.len() implies (#[trigger] fi.classes[m]).1.fqdn != g by {
                assert(files[last].1.classes[m] == fi.classes[m]);
                assert(files[last].1.classes[m].1.fqdn != files[i].1.classes[j].1.fqdn);
            }
        }
        if i == last && 0 <= j < fi.classes.len() {
            let h = fi.classes[j].1.fqdn;
            assert forall|a: int, b: int|
                0 <= a < fi.classes.len() && 0 <= b < fi.classes.len() && a != b implies (#[trigger] fi.classes[a]).1.fqdn
                    != (#[trigger] fi.classes[b]).1.fqdn by {
                assert(files[last].1.classes[a].1.fqdn != files[last].1.classes[b].1.fqdn);
            }
            lemma_hierarchy_files(index, rest, 0, -1, h);
            assert(!class_fqdn_in_files(rest, h)) by {
                if class_fqdn_in_files(rest, h) {
                    let (i1, j1) = choose|i1: int, j1: int|
                        #![trigger rest[i1].1.classes[j1]]
                        0 <= i1 < rest.len() && 0 <= j1 < rest[i1].1.classes.len() && rest[i1].1.classes[j1].1.fqdn == h;
                    assert(rest[i1] == files[i1]);
                    assert(files[i1].1.classes[j1].1.fqdn != files[last].1.classes[j].1.fqdn);
                }
            }
            lemma_hierarchy_classes_own(index, fi, prev, fi.classes, j);
        }
        if !class_fqdn_in_files(files, f) {
            assert(!class_fqdn_in_files(rest, f)) by {
                if class_fqdn_in_files(rest, f) {
                    let (i1, j1) = choose|i1: int, j1: int|
                        #![trigger rest[i1].1.classes[j1]]
                        0 <= i1 < rest.len() && 0 <= j1 < rest[i1].1.classes.len() && rest[i1].1.classes[j1].1.fqdn == f;
                    assert(rest[i1] == files[i1]);
                    assert(files[i1].1.classes[j1].1.fqdn == f);
                }
            }
            lemma_hierarchy_files(index, rest, 0, -1, f);
            lemma_hierarchy_classes_other(index, fi, prev, fi.classes, f);
            assert forall|m: int| 0 <= m < fi.classes.len() implies (#[trigger] fi.classes[m]).1.fqdn != f by {
                assert(files[last].1.classes[m] == fi.classes[m]);
            }
        }
    }
}

/// Whether some class of the files has the qualified name.
pub open spec fn class_fqdn_in_files(files: Seq<(Seq<char>, FileInfoView)>, f: Seq<char>) -> bool {
    exists|i: int, j: int|
        #![trigger files[i].1.classes[j]]
        0 <= i < files.len() && 0 <= j < files[i].1.classes.len() && files[i].1.classes[j].1.fqdn == f
}

/// When no two classes share a qualified name, the superclass map holds,
/// for each class, its superclass resolved in its file (when it resolves),
/// and the interface map its interfaces that resolve, in order (when there
/// are any); a name that is no class's has no entry in either map.
pub proof fn law_hierarchy_maps(
    index: Seq<(Seq<char>, Seq<Seq<char>>)>,
    files: Seq<(Seq<char>, FileInfoView)>,
    i: int,
    j: int,
    f: Seq<char>,
)
    requires
        fqdns_unique(files),
    ensures
        0 <= i < files.len() && 0 <= j < files[i].1.classes.len() ==> lookup(
            hierarchy_files(index, files).0,
            files[i].1.classes[j].1.fqdn,
        ) == superclass_entry(index, files[i].1, files[i].1.classes[j].1) && lookup(
            hierarchy_files(index, files).1,
            files[i].1.classes[j].1.fqdn,
        ) == interfaces_entry(index, files[i].1, files[i].1.classes[j].1),
        !class_fqdn_in_files(files, f) ==> lookup(hierarchy_files(index, files).0, f) is None && lookup(
            hierarchy_files(index, files).1,
            f,
        ) is None,
{
    lemma_hierarchy_files(index, files, i, j, f);
}

/// The qualified names of the listed classes that have the simple name,
/// in order.
pub open spec fn declared_in(classes: Seq<(Seq<char>, ClassInfoView)>, name: Seq<char>) -> Seq<Seq<char>>
    decreases classes.len(),
{
    if classes.len() == 0 {
        Seq::empty()
    } else {
        declared_in(classes.drop_last(), name) + if classes.last().1.simple_name == name {
            seq![classes.last().1.fqdn]
        } else {
            Seq::empty()
        }
    }
}

/// The qualified names of the classes of the files that have the simple
/// name, files and classes in order.
pub open spec fn declared_names(files: Seq<(Seq<char>, FileInfoView)>, name: Seq<char>) -> Seq<Seq<char>>
    decreases files.len(),
{
    if files.len() == 0 {
        Seq::empty()
    } else {
        declared_names(files.drop_last(), name) + declared_in(files.last().1.classes, name)
    }
}

/// The list an optional list stands for.
pub open spec fn list_or_empty(o: Option<Seq<Seq<char>>>) -> Seq<Seq<char>> {
    match o {
        Some(l) => l,
        None => Seq::empty(),
    }
}

proof fn lemma_index_classes_list(
    idx: Seq<(Seq<char>, Seq<Seq<char>>)>,
    classes: Seq<(Seq<char>, ClassInfoView)>,
    name: Seq<char>,
)
    requires
        keys_distinct(idx),
    ensures
        list_or_empty(lookup(index_classes(idx, classes), name)) == list_or_empty(lookup(idx, name)) + declared_in(
            classes,
            name,
        ),
    decreases classes.len(),
{
    if classes.len() == 0 {
        assert(list_or_empty(lookup(idx, name)) + declared_in(classes, name) =~= list_or_empty(lookup(idx, name)));
    } else {
        let prev = index_classes(idx, classes.drop_last());
        let c = classes.last().1;
        lemma_index_classes_list(idx, classes.drop_last(), name);
        lemma_index_classes_distinct(idx, classes.drop_last());
        let l2 = match lookup(prev, c.simple_name) {
            Some(l) => l.push(c.fqdn),
            None => seq![c.fqdn],
        };
        lemma_lookup_insert(prev, c.simple_name, l2, name);
        if c.simple_name == name {
            assert(list_or_empty(lookup(index_classes(idx, classes), name)) =~= list_or_empty(lookup(idx, name))
                + declared_in(classes, name));
        } else {
            assert(list_or_empty(lookup(index_classes(idx, classes), name)) =~= list_or_empty(lookup(idx, name))
                + declared_in(classes, name));
        }
    }
}

proof fn lemma_index_files_list(files: Seq<(Seq<char>, FileInfoView)>, name: Seq<char>)
    ensures
        list_or_empty(lookup(index_files(files), name)) == declared_names(files, name),
    decreases files.len(),
{
    if files.len() > 0 {
        lemma_index_files_list(files.drop_last(), name);
        lemma_index_files_distinct(files.drop_last());
        lemma_index_classes_list(index_files(files.drop_last()), files.last().1.classes, name);
    } else {
        assert(lookup(index_files(files), name) is None);
    }
}

/// Each list of the global index is exactly the qualified names of the
/// classes with that simple name, files and classes in order, repeats
/// kept; a simple name that no class has has no entry.
pub proof fn law_global_index_lists(files: Seq<(Seq<char>, FileInfoView)>, name: Seq<char>)
    ensures
        lookup(index_files(files), name) == if declared_names(files, name).len() > 0 {
            Some(declared_names(files, name))
        } else {
            None
        },
{
    lemma_index_files_list(files, name);
    lemma_index_files_nonempty(files, name);
}

/// The standard `java.lang` types that need no import are all recognised:
/// `String`, `Object`, `Class`, the boxed primitives, `Math`, `System`,
/// `Thread`, `Runnable`, the exception roots, `StringBuilder`,
/// `StringBuffer`, `Number` and `Void`.
pub proof fn law_java_lang_types_recognised()
    ensures
        java_lang_names().contains("String"@),
        java_lang_names().contains("Object"@),
        java_lang_names().contains("Class"@),
        java_lang_names().contains("Integer"@),
        java_lang_names().contains("Long"@),
        java_lang_names().contains("Double"@),
        java_lang_names().contains("Float"@),
        java_lang_names().contains("Boolean"@),
        java_lang_names().contains("Byte"@),
        java_lang_names().contains("Short"@),
        java_lang_names().contains("Character"@),
        java_lang_names().contains("Math"@),
        java_lang_names().contains("System"@),
        java_lang_names().contains("Thread"@),
        java_lang_names().contains("Runnable"@),
        java_lang_names().contains("Exception"@),
        java_lang_names().contains("RuntimeException"@),
        java_lang_names().contains("Error"@),
        java_lang_names().contains("Throwable"@),
        java_lang_names().contains("StringBuilder"@),
        java_lang_names().contains("StringBuffer"@),
        java_lang_names().contains("Number"@),
        java_lang_names().contains("Void"@),
{
    assert(java_lang_names()[0] == "String"@);
    assert(java_lang_names()[1] == "Object"@);
    assert(java_lang_names()[2] == "Class"@);
    assert(java_lang_names()[3] == "Integer"@);
    assert(java_lang_names()[4] == "Long"@);
    assert(java_lang_names()[5] == "Double"@);
    assert(java_lang_names()[6] == "Float"@);
    assert(java_lang_names()[7] == "Boolean"@);
    assert(java_lang_names()[8] == "Byte"@);
    assert(java_lang_names()[9] == "Short"@);
    assert(java_lang_names()[10] == "Character"@);
    assert(java_lang_names()[11] == "Math"@);
    assert(java_lang_names()[12] == "System"@);
    assert(java_lang_names()[13] == "Thread"@);
    assert(java_lang_names()[14] == "Runnable"@);
    assert(java_lang_names()[15] == "Exception"@);
    assert(java_lang_names()[16] == "RuntimeException"@);
    assert(java_lang_names()[17] == "Error"@);
    assert(java_lang_names()[18] == "Throwable"@);
    assert(java_lang_names()[19] == "StringBuilder"@);
    assert(java_lang_names()[20] == "StringBuffer"@);
    assert(java_lang_names()[21] == "Number"@);
    assert(java_lang_names()[22] == "Void"@);
}

/// A `java.lang` type that is neither imported, nor a class of the file,
/// nor listed by the index in the file's own package, resolves to
/// `java.lang.` and its name.
pub proof fn law_java_lang_resolution(
    index: Seq<(Seq<char>, Seq<Seq<char>>)>,
    package: Option<Seq<char>>,
    imports: Seq<(Seq<char>, Seq<char>)>,
    class_names: Seq<Seq<char>>,
    wildcards: Seq<Seq<char>>,
    name: Seq<char>,
)
    requires
        java_lang_names().contains(name),
        !primitive_names().contains(name),
        lookup(imports, name) is None,
        !class_names.contains(name),
        package matches Some(pk) ==> !index_lists(index, name, pk + "."@ + name),
    ensures
        resolve_in(index, package, imports, class_names, wildcards, name) == Some("java.lang."@ + name),
{
}

} // verus!
