//! The symbols found in a Java source file, with their mathematical values.

use vstd::prelude::*;

use crate::strmap::{entries_view, StrMap};
use crate::text::opt_view;

verus! {

/// The view of an optional value.
pub open spec fn view_opt<T: View>(o: Option<T>) -> Option<T::V> {
    match o {
        Some(x) => Some(x@),
        None => None,
    }
}

/// A place in a source file.
#[derive(Debug, Clone, Copy, PartialEq, Eq, Structural)]
pub struct SourcePosition {
    /// One-based.
    pub line: usize,
    /// Zero-based.
    pub column: usize,
    /// One-based.
    pub end_line: usize,
    /// Zero-based.
    pub end_column: usize,
}

impl SourcePosition {
    /// The position of something whose place is not known: all zero.
    pub fn unknown() -> (p: Self)
        ensures
            p == (SourcePosition { line: 0, column: 0, end_line: 0, end_column: 0 }),
    {
        SourcePosition { line: 0, column: 0, end_line: 0, end_column: 0 }
    }
}

/// An annotation together with its elements.
#[derive(Debug)]
pub struct AnnotationInfo {
    /// The name as written, without `@`.
    pub name: String,
    /// The fully qualified name, once resolved.
    pub fqdn: Option<String>,
    /// The element values by element name.
    pub elements: StrMap<String>,
    pub position: SourcePosition,
}

pub struct AnnotationInfoView {
    pub name: Seq<char>,
    pub fqdn: Option<Seq<char>>,
    pub elements: Seq<(Seq<char>, Seq<char>)>,
    pub position: SourcePosition,
}

impl View for AnnotationInfo {
    type V = AnnotationInfoView;

    open spec fn view(&self) -> AnnotationInfoView {
        AnnotationInfoView {
            name: self.name@,
            fqdn: opt_view(self.fqdn),
            elements: entries_view(self.elements@),
            position: self.position,
        }
    }
}

/// The views of a list of annotations.
pub open spec fn annotation_views(v: Seq<AnnotationInfo>) -> Seq<AnnotationInfoView> {
    v.map_values(|a: AnnotationInfo| a@)
}

/// The views of a list of string pairs.
pub open spec fn pair_views(v: Seq<(String, String)>) -> Seq<(Seq<char>, Seq<char>)> {
    v.map_values(|p: (String, String)| (p.0@, p.1@))
}

/// A method or constructor declaration.
#[derive(Debug)]
pub struct MethodInfo {
    pub name: String,
    /// The return type as written (its base name for a generic type; empty
    /// for a constructor).
    pub return_type: String,
    /// Parameter names and types.
    pub parameters: Vec<(String, String)>,
    pub annotations: Vec<AnnotationInfo>,
    pub position: SourcePosition,
}

pub struct MethodInfoView {
    pub name: Seq<char>,
    pub return_type: Seq<char>,
    pub parameters: Seq<(Seq<char>, Seq<char>)>,
    pub annotations: Seq<AnnotationInfoView>,
    pub position: SourcePosition,
}

impl View for MethodInfo {
    type V = MethodInfoView;

    open spec fn view(&self) -> MethodInfoView {
        MethodInfoView {
            name: self.name@,
            return_type: self.return_type@,
            parameters: pair_views(self.parameters@),
            annotations: annotation_views(self.annotations@),
            position: self.position,
        }
    }
}

pub open spec fn method_views(v: Seq<MethodInfo>) -> Seq<MethodInfoView> {
    v.map_values(|m: MethodInfo| m@)
}

/// A field declaration.
#[derive(Debug)]
pub struct FieldInfo {
    pub name: String,
    /// The type as written (its base name for a generic type).
    pub type_name_: String,
    pub annotations: Vec<AnnotationInfo>,
    pub position: SourcePosition,
}

pub struct FieldInfoView {
    pub name: Seq<char>,
    pub type_name_: Seq<char>,
    pub annotations: Seq<AnnotationInfoView>,
    pub position: SourcePosition,
}

impl View for FieldInfo {
    type V = FieldInfoView;

    open spec fn view(&self) -> FieldInfoView {
        FieldInfoView {
            name: self.name@,
            type_name_: self.type_name_@,
            annotations: annotation_views(self.annotations@),
            position: self.position,
        }
    }
}

pub open spec fn field_views(v: Seq<FieldInfo>) -> Seq<FieldInfoView> {
    v.map_values(|f: FieldInfo| f@)
}

/// A class, interface or enum declaration.
#[derive(Debug)]
pub struct ClassInfo {
    pub simple_name: String,
    pub fqdn: String,
    /// The superclass as written.
    pub extends: Option<String>,
    /// The implemented interfaces as written.
    pub implements: Vec<String>,
    pub methods: Vec<MethodInfo>,
    pub fields: Vec<FieldInfo>,
    pub annotations: Vec<AnnotationInfo>,
    pub is_interface: bool,
    pub is_enum: bool,
    pub position: SourcePosition,
}

pub struct ClassInfoView {
    pub simple_name: Seq<char>,
    pub fqdn: Seq<char>,
    pub extends: Option<Seq<char>>,
    pub implements: Seq<Seq<char>>,
    pub methods: Seq<MethodInfoView>,
    pub fields: Seq<FieldInfoView>,
    pub annotations: Seq<AnnotationInfoView>,
    pub is_interface: bool,
    pub is_enum: bool,
    pub position: SourcePosition,
}

/// The views of a list of strings.
pub open spec fn string_views(v: Seq<String>) -> Seq<Seq<char>> {
    v.map_values(|s: String| s@)
}

impl View for ClassInfo {
    type V = ClassInfoView;

    open spec fn view(&self) -> ClassInfoView {
        ClassInfoView {
            simple_name: self.simple_name@,
            fqdn: self.fqdn@,
            extends: opt_view(self.extends),
            implements: string_views(self.implements@),
            methods: method_views(self.methods@),
            fields: field_views(self.fields@),
            annotations: annotation_views(self.annotations@),
            is_interface: self.is_interface,
            is_enum: self.is_enum,
            position: self.position,
        }
    }
}

/// A method invocation.
#[derive(Debug)]
pub struct MethodCall {
    pub method_name: String,
    /// The receiver expression as written, if any.
    pub receiver_type: Option<String>,
    pub position: SourcePosition,
}

pub struct MethodCallView {
    pub method_name: Seq<char>,
    pub receiver_type: Option<Seq<char>>,
    pub position: SourcePosition,
}

impl View for MethodCall {
    type V = MethodCallView;

    open spec fn view(&self) -> MethodCallView {
        MethodCallView {
            method_name: self.method_name@,
            receiver_type: opt_view(self.receiver_type),
            position: self.position,
        }
    }
}

/// A `new` expression.
#[derive(Debug)]
pub struct ConstructorCall {
    /// The instantiated type as written (its base name for a generic type).
    pub type_name_: String,
    pub resolved_type: Option<String>,
    pub position: SourcePosition,
}

pub struct ConstructorCallView {
    pub type_name_: Seq<char>,
    pub resolved_type: Option<Seq<char>>,
    pub position: SourcePosition,
}

impl View for ConstructorCall {
    type V = ConstructorCallView;

    open spec fn view(&self) -> ConstructorCallView {
        ConstructorCallView {
            type_name_: self.type_name_@,
            resolved_type: opt_view(self.resolved_type),
            position: self.position,
        }
    }
}

/// What an annotation is attached to.
#[derive(Debug)]
pub enum AnnotationTarget {
    /// The annotated class.
    Class(String),
    /// Class and method names.
    Method(String, String),
    /// Class and field names.
    Field(String, String),
    /// Class, method and parameter names.
    Parameter(String, String, String),
    Unknown,
}

pub enum AnnotationTargetView {
    Class(Seq<char>),
    Method(Seq<char>, Seq<char>),
    Field(Seq<char>, Seq<char>),
    Parameter(Seq<char>, Seq<char>, Seq<char>),
    Unknown,
}

impl View for AnnotationTarget {
    type V = AnnotationTargetView;

    open spec fn view(&self) -> AnnotationTargetView {
        match self {
            AnnotationTarget::Class(c) => AnnotationTargetView::Class(c@),
            AnnotationTarget::Method(c, m) => AnnotationTargetView::Method(c@, m@),
            AnnotationTarget::Field(c, f) => AnnotationTargetView::Field(c@, f@),
            AnnotationTarget::Parameter(c, m, p) => AnnotationTargetView::Parameter(c@, m@, p@),
            AnnotationTarget::Unknown => AnnotationTargetView::Unknown,
        }
    }
}

/// A use of an annotation.
#[derive(Debug)]
pub struct AnnotationUsage {
    /// The name as written, without `@`.
    pub annotation_name: String,
    pub target: AnnotationTarget,
    pub position: SourcePosition,
}

pub struct AnnotationUsageView {
    pub annotation_name: Seq<char>,
    pub target: AnnotationTargetView,
    pub position: SourcePosition,
}

impl View for AnnotationUsage {
    type V = AnnotationUsageView;

    open spec fn view(&self) -> AnnotationUsageView {
        AnnotationUsageView {
            annotation_name: self.annotation_name@,
            target: self.target@,
            position: self.position,
        }
    }
}

/// A local variable declaration.
#[derive(Debug)]
pub struct VariableDeclaration {
    pub variable_name: String,
    /// The type as written (its base name for a generic type).
    pub type_name_: String,
    pub resolved_type: Option<String>,
    /// The enclosing method or constructor.
    pub method_context: Option<String>,
    /// The enclosing class.
    pub class_context: Option<String>,
    pub position: SourcePosition,
}

pub struct VariableDeclarationView {
    pub variable_name: Seq<char>,
    pub type_name_: Seq<char>,
    pub resolved_type: Option<Seq<char>>,
    pub method_context: Option<Seq<char>>,
    pub class_context: Option<Seq<char>>,
    pub position: SourcePosition,
}

impl View for VariableDeclaration {
    type V = VariableDeclarationView;

    open spec fn view(&self) -> VariableDeclarationView {
        VariableDeclarationView {
            variable_name: self.variable_name@,
            type_name_: self.type_name_@,
            resolved_type: opt_view(self.resolved_type),
            method_context: opt_view(self.method_context),
            class_context: opt_view(self.class_context),
            position: self.position,
        }
    }
}

/// The symbols of one Java source file.
#[derive(Debug)]
pub struct FileInfo {
    pub file_path: String,
    pub package_name: Option<String>,
    /// Simple name to imported qualified name.
    pub explicit_imports: StrMap<String>,
    /// Packages imported with `.*`.
    pub wildcard_imports: Vec<String>,
    /// Classes, interfaces and enums by simple name.
    pub classes: StrMap<ClassInfo>,
    pub method_calls: Vec<MethodCall>,
    pub constructor_calls: Vec<ConstructorCall>,
    pub annotations: Vec<AnnotationUsage>,
    pub variables: Vec<VariableDeclaration>,
}

pub struct FileInfoView {
    pub file_path: Seq<char>,
    pub package_name: Option<Seq<char>>,
    pub explicit_imports: Seq<(Seq<char>, Seq<char>)>,
    pub wildcard_imports: Seq<Seq<char>>,
    pub classes: Seq<(Seq<char>, ClassInfoView)>,
    pub method_calls: Seq<MethodCallView>,
    pub constructor_calls: Seq<ConstructorCallView>,
    pub annotations: Seq<AnnotationUsageView>,
    pub variables: Seq<VariableDeclarationView>,
}

impl View for FileInfo {
    type V = FileInfoView;

    open spec fn view(&self) -> FileInfoView {
        FileInfoView {
            file_path: self.file_path@,
            package_name: opt_view(self.package_name),
            explicit_imports: entries_view(self.explicit_imports@),
            wildcard_imports: string_views(self.wildcard_imports@),
            classes: entries_view(self.classes@),
            method_calls: self.method_calls@.map_values(|c: MethodCall| c@),
            constructor_calls: self.constructor_calls@.map_values(|c: ConstructorCall| c@),
            annotations: self.annotations@.map_values(|a: AnnotationUsage| a@),
            variables: self.variables@.map_values(|v: VariableDeclaration| v@),
        }
    }
}

} // verus!
