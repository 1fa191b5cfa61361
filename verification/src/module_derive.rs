//! What the derivation of a module decides from the attributes of a
//! struct and of its fields: which combinations are allowed, which field
//! carries the module's information, and how each field is initialized.
//!
//! Attributes come in as the last segment of their path. Generating code
//! from the decisions is left to the caller.

use crate::text::same_text;
use vstd::prelude::*;

verus! {

/// An attribute of a field.
pub struct FieldAttr {
    /// The last segment of the attribute's path.
    pub name: String,
    /// Whether the arguments of the attribute are one expression.
    pub args_are_expr: bool,
}

/// A field attribute as plain values.
pub struct FieldAttrView {
    pub name: Seq<char>,
    pub args_are_expr: bool,
}

impl View for FieldAttr {
    type V = FieldAttrView;

    open spec fn view(&self) -> FieldAttrView {
        FieldAttrView { name: self.name@, args_are_expr: self.args_are_expr }
    }
}

/// The attributes of a field as plain values.
pub open spec fn attr_views(attrs: Seq<FieldAttr>) -> Seq<FieldAttrView> {
    Seq::new(attrs.len(), |i: int| attrs[i]@)
}

/// What the attributes of a field say about it.
#[derive(Clone, Copy, Debug, PartialEq, Eq, Structural)]
pub struct FieldAttrs {
    pub is_module_info: bool,
    pub is_submodule: bool,
    pub is_core_ref: bool,
    /// The position of the attribute whose arguments initialize the field.
    pub init_with: Option<usize>,
}

/// Why the attributes of a field were refused. Each names the position of
/// the attribute at which the error is reported.
#[derive(Clone, Copy, Debug, PartialEq, Eq, Structural)]
pub enum FieldAttrError {
    /// A second `init_with`.
    DuplicateInitWith { attr: usize },
    /// The arguments of `init_with` are not an expression.
    BadInitExpression { attr: usize },
    /// More than one of the attributes that exclude each other.
    Conflicting { attr: usize },
}

/// The state of reading the attributes of a field.
pub struct AttrScan {
    pub attrs: FieldAttrs,
    /// How many of the attributes that exclude each other were seen.
    pub exclusive_count: nat,
    /// The position of the last attribute that counted.
    pub last: Option<usize>,
}

/// What one more attribute does to the reading. A second `module_info`,
/// `submodule` or `core_ref` is passed over like any unknown attribute.
pub open spec fn scan_step(scan: AttrScan, attr: FieldAttrView, at: usize) -> Result<AttrScan, FieldAttrError> {
    if attr.name == "module_info"@ && !scan.attrs.is_module_info {
        Ok(
            AttrScan {
                attrs: FieldAttrs {
                    is_module_info: true,
                    is_submodule: scan.attrs.is_submodule,
                    is_core_ref: scan.attrs.is_core_ref,
                    init_with: scan.attrs.init_with,
                },
                exclusive_count: scan.exclusive_count + 1,
                last: Some(at),
            },
        )
    } else if attr.name == "submodule"@ && !scan.attrs.is_submodule {
        Ok(
            AttrScan {
                attrs: FieldAttrs {
                    is_module_info: scan.attrs.is_module_info,
                    is_submodule: true,
                    is_core_ref: scan.attrs.is_core_ref,
                    init_with: scan.attrs.init_with,
                },
                exclusive_count: scan.exclusive_count + 1,
                last: Some(at),
            },
        )
    } else if attr.name == "core_ref"@ && !scan.attrs.is_core_ref {
        Ok(
            AttrScan {
                attrs: FieldAttrs {
                    is_module_info: scan.attrs.is_module_info,
                    is_submodule: scan.attrs.is_submodule,
                    is_core_ref: true,
                    init_with: scan.attrs.init_with,
                },
                exclusive_count: scan.exclusive_count + 1,
                last: Some(at),
            },
        )
    } else if attr.name == "init_with"@ {
        if scan.attrs.init_with is Some {
            Err(FieldAttrError::DuplicateInitWith { attr: at })
        } else if !attr.args_are_expr {
            Err(FieldAttrError::BadInitExpression { attr: at })
        } else {
            Ok(
                AttrScan {
                    attrs: FieldAttrs {
                        is_module_info: scan.attrs.is_module_info,
                        is_submodule: scan.attrs.is_submodule,
                        is_core_ref: scan.attrs.is_core_ref,
                        init_with: Some(at),
                    },
                    exclusive_count: scan.exclusive_count + 1,
                    last: Some(at),
                },
            )
        }
    } else {
        Ok(scan)
    }
}

/// The reading of the first `n` attributes, or the first error in them.
pub open spec fn scan_attrs(attrs: Seq<FieldAttrView>, n: int) -> Result<AttrScan, FieldAttrError>
    decreases n,
{
    if n <= 0 {
        Ok(
            AttrScan {
                attrs: FieldAttrs {
                    is_module_info: false,
                    is_submodule: false,
                    is_core_ref: false,
                    init_with: None,
                },
                exclusive_count: 0,
                last: None,
            },
        )
    } else {
        match scan_attrs(attrs, n - 1) {
            Err(e) => Err(e),
            Ok(scan) => scan_step(scan, attrs[n - 1], (n - 1) as usize),
        }
    }
}

/// What the attributes of a field say, or why they are refused. The
/// attributes that exclude each other are `init_with`, `module_info`,
/// `submodule` and `core_ref`; more than one of them on a field is an
/// error, reported at the last of them.
pub open spec fn field_attrs(attrs: Seq<FieldAttrView>) -> Result<FieldAttrs, FieldAttrError> {
    match scan_attrs(attrs, attrs.len() as int) {
        Err(e) => Err(e),
        Ok(scan) => if scan.exclusive_count > 1 && scan.last is Some {
            Err(FieldAttrError::Conflicting { attr: scan.last->0 })
        } else {
            Ok(scan.attrs)
        },
    }
}

impl FieldAttrs {
    /// Reads the attributes of a field.
    pub fn from_attrs(attrs: &Vec<FieldAttr>) -> (r: Result<FieldAttrs, FieldAttrError>)
        ensures
            r == field_attrs(attr_views(attrs@)),
    {
        let ghost views = attr_views(attrs@);
        let mut tp = FieldAttrs {
            is_module_info: false,
            is_submodule: false,
            is_core_ref: false,
            init_with: None,
        };
        let mut exclusive_count: usize = 0;
        let mut last: Option<usize> = None;
        let mut i: usize = 0;
        while i < attrs.len()
            invariant
                i <= attrs@.len(),
                views == attr_views(attrs@),
                exclusive_count <= i,
                scan_attrs(views, i as int) == Ok::<AttrScan, FieldAttrError>(
                    AttrScan { attrs: tp, exclusive_count: exclusive_count as nat, last },
                ),
                exclusive_count > 0 ==> last is Some,
            decreases attrs@.len() - i,
        {
            let attr = &attrs[i];
            assert(views[i as int] == attr@);
            let name = attr.name.as_str();
            if same_text(name, "module_info") && !tp.is_module_info {
                tp.is_module_info = true;
                exclusive_count = exclusive_count + 1;
                last = Some(i);
            } else if same_text(name, "submodule") && !tp.is_submodule {
                tp.is_submodule = true;
                exclusive_count = exclusive_count + 1;
                last = Some(i);
            } else if same_text(name, "core_ref") && !tp.is_core_ref {
                tp.is_core_ref = true;
                exclusive_count = exclusive_count + 1;
                last = Some(i);
            } else if same_text(name, "init_with") {
                if tp.init_with.is_some() {
                    assert(scan_attrs(views, i + 1) == Err::<AttrScan, FieldAttrError>(
                        FieldAttrError::DuplicateInitWith { attr: i },
                    ));
                    proof {
                        lemma_scan_error_stays(views, i + 1, views.len() as int);
                    }
                    return Err(FieldAttrError::DuplicateInitWith { attr: i });
                }
                if !attr.args_are_expr {
                    assert(scan_attrs(views, i + 1) == Err::<AttrScan, FieldAttrError>(
                        FieldAttrError::BadInitExpression { attr: i },
                    ));
                    proof {
                        lemma_scan_error_stays(views, i + 1, views.len() as int);
                    }
                    return Err(FieldAttrError::BadInitExpression { attr: i });
                }
                tp.init_with = Some(i);
                exclusive_count = exclusive_count + 1;
                last = Some(i);
            }
            i = i + 1;
        }
        if exclusive_count > 1 {
            match last {
                Some(at) => Err(FieldAttrError::Conflicting { attr: at }),
                None => Ok(tp),
            }
        } else {
            Ok(tp)
        }
    }
}

/// Once the reading has met an error, more attributes do not change it.
proof fn lemma_scan_error_stays(attrs: Seq<FieldAttrView>, n: int, m: int)
    requires
        0 <= n <= m,
        scan_attrs(attrs, n) is Err,
    ensures
        scan_attrs(attrs, m) == scan_attrs(attrs, n),
    decreases m - n,
{
    if n < m {
        lemma_scan_error_stays(attrs, n, m - 1);
    }
}

/// How a field of the module is initialized.
#[derive(Clone, Copy, Debug, PartialEq, Eq, Structural)]
pub enum FieldInit {
    /// By the expression in the arguments of the attribute at `attr`.
    InitWith { attr: usize },
    /// By registering the field as a submodule.
    Submodule,
    /// By a reference to the core.
    CoreRef,
    /// By its default value.
    Default,
}

/// What kind of item the derivation was put on.
#[derive(Clone, Copy, Debug, PartialEq, Eq, Structural)]
pub enum InputShape {
    /// A struct with named fields.
    NamedStruct,
    /// A struct with unnamed fields or without fields.
    OtherStruct,
    /// An enum or a union.
    NotAStruct,
}

/// Why a derivation was refused.
#[derive(Clone, Copy, Debug, PartialEq, Eq, Structural)]
pub enum DeriveError {
    /// The item is no struct.
    NotAStruct,
    /// The struct has no named fields.
    NotNamedFields,
    /// The attributes of the field at `field` were refused.
    Field { field: usize, error: FieldAttrError },
    /// The field at `field` is a second `module_info` field.
    DuplicateModuleInfo { field: usize },
    /// No field is marked `module_info`.
    MissingModuleInfo,
}

/// How a field with the given attributes is initialized.
pub open spec fn init_of(attrs: FieldAttrs) -> FieldInit {
    match attrs.init_with {
        Some(attr) => FieldInit::InitWith { attr },
        None => if attrs.is_submodule {
            FieldInit::Submodule
        } else if attrs.is_core_ref {
            FieldInit::CoreRef
        } else {
            FieldInit::Default
        },
    }
}

/// The state of going through the fields of a struct.
pub struct FieldScan {
    /// The position of the `module_info` field, if one was seen.
    pub info_field: Option<usize>,
    /// How each field seen so far is initialized.
    pub inits: Seq<FieldInit>,
}

/// Going through the first `n` fields, or the first error in them.
pub open spec fn scan_fields(fields: Seq<Seq<FieldAttrView>>, n: int) -> Result<FieldScan, DeriveError>
    decreases n,
{
    if n <= 0 {
        Ok(FieldScan { info_field: None, inits: Seq::empty() })
    } else {
        match scan_fields(fields, n - 1) {
            Err(e) => Err(e),
            Ok(scan) => match field_attrs(fields[n - 1]) {
                Err(error) => Err(DeriveError::Field { field: (n - 1) as usize, error }),
                Ok(attrs) => if attrs.is_module_info && scan.info_field is Some {
                    Err(DeriveError::DuplicateModuleInfo { field: (n - 1) as usize })
                } else {
                    Ok(
                        FieldScan {
                            info_field: if attrs.is_module_info {
                                Some((n - 1) as usize)
                            } else {
                                scan.info_field
                            },
                            inits: scan.inits.push(init_of(attrs)),
                        },
                    )
                },
            },
        }
    }
}

/// What the derivation generates for a struct: which field carries the
/// module's information, and how each field is initialized.
pub struct ModulePlan {
    pub info_field: usize,
    pub fields: Vec<FieldInit>,
}

/// What the derivation decides for an item of the given shape with the
/// given fields: the plan as its information field and its field
/// initializers, or why the item is refused. The shape is looked at first,
/// then the fields in their order, and at the end whether a field is
/// marked `module_info`.
pub open spec fn module_plan(shape: InputShape, fields: Seq<Seq<FieldAttrView>>) -> Result<
    (usize, Seq<FieldInit>),
    DeriveError,
> {
    match shape {
        InputShape::NotAStruct => Err(DeriveError::NotAStruct),
        InputShape::OtherStruct => Err(DeriveError::NotNamedFields),
        InputShape::NamedStruct => match scan_fields(fields, fields.len() as int) {
            Err(e) => Err(e),
            Ok(scan) => match scan.info_field {
                None => Err(DeriveError::MissingModuleInfo),
                Some(info_field) => Ok((info_field, scan.inits)),
            },
        },
    }
}

/// The attributes of the fields as plain values.
pub open spec fn field_views(fields: Seq<Vec<FieldAttr>>) -> Seq<Seq<FieldAttrView>> {
    Seq::new(fields.len(), |i: int| attr_views(fields[i]@))
}

/// Once going through the fields has met an error, more fields do not
/// change it.
proof fn lemma_field_error_stays(fields: Seq<Seq<FieldAttrView>>, n: int, m: int)
    requires
        0 <= n <= m,
        scan_fields(fields, n) is Err,
    ensures
        scan_fields(fields, m) == scan_fields(fields, n),
    decreases m - n,
{
    if n < m {
        lemma_field_error_stays(fields, n, m - 1);
    }
}

/// Decides what the derivation generates for an item.
pub fn derive_module(shape: InputShape, fields: &Vec<Vec<FieldAttr>>) -> (r: Result<ModulePlan, DeriveError>)
    ensures
        match module_plan(shape, field_views(fields@)) {
            Err(e) => r == Err::<ModulePlan, DeriveError>(e),
            Ok((info_field, inits)) => r matches Ok(plan) && plan.info_field == info_field
                && plan.fields@ == inits,
        },
{
    match shape {
        InputShape::NotAStruct => {
            return Err(DeriveError::NotAStruct);
        },
        InputShape::OtherStruct => {
            return Err(DeriveError::NotNamedFields);
        },
        InputShape::NamedStruct => {},
    }
    let ghost views = field_views(fields@);
    let mut inits: Vec<FieldInit> = Vec::new();
    let mut info_field: Option<usize> = None;
    let mut i: usize = 0;
    while i < fields.len()
        invariant
            i <= fields@.len(),
            shape is NamedStruct,
            views == field_views(fields@),
            scan_fields(views, i as int) == Ok::<FieldScan, DeriveError>(
                FieldScan { info_field, inits: inits@ },
            ),
        decreases fields@.len() - i,
    {
        assert(views[i as int] == attr_views(fields@[i as int]@));
        let attrs = match FieldAttrs::from_attrs(&fields[i]) {
            Ok(attrs) => attrs,
            Err(error) => {
                assert(scan_fields(views, i + 1) == Err::<FieldScan, DeriveError>(
                    DeriveError::Field { field: i, error },
                ));
                proof {
                    lemma_field_error_stays(views, i + 1, views.len() as int);
                }
                return Err(DeriveError::Field { field: i, error });
            },
        };
        if attrs.is_module_info {
            if info_field.is_some() {
                assert(scan_fields(views, i + 1) == Err::<FieldScan, DeriveError>(
                    DeriveError::DuplicateModuleInfo { field: i },
                ));
                proof {
                    lemma_field_error_stays(views, i + 1, views.len() as int);
                }
                return Err(DeriveError::DuplicateModuleInfo { field: i });
            }
            info_field = Some(i);
        }
        let init = match attrs.init_with {
            Some(attr) => FieldInit::InitWith { attr },
            None => if attrs.is_submodule {
                FieldInit::Submodule
            } else if attrs.is_core_ref {
                FieldInit::CoreRef
            } else {
                FieldInit::Default
            },
        };
        inits.push(init);
        i = i + 1;
    }
    match info_field {
        Some(at) => Ok(ModulePlan { info_field: at, fields: inits }),
        None => Err(DeriveError::MissingModuleInfo),
    }
}

/// A flag of a module.
#[derive(Clone, Copy, Debug, PartialEq, Eq, Structural)]
pub enum ModuleFlag {
    Integral,
    IntegralRecursive,
    Anonymous,
}

/// The flags that the attributes of a module set, in the order in which
/// the derivation writes them.
pub open spec fn flags_of(integral: bool, integral_recursive: bool, anonymous: bool) -> Seq<ModuleFlag> {
    (if integral {
        seq![ModuleFlag::Integral]
    } else {
        Seq::empty()
    }) + (if integral_recursive {
        seq![ModuleFlag::IntegralRecursive]
    } else {
        Seq::empty()
    }) + (if anonymous {
        seq![ModuleFlag::Anonymous]
    } else {
        Seq::empty()
    })
}

/// The flags that the attributes of a module set.
pub fn module_metadata(integral: bool, integral_recursive: bool, anonymous: bool) -> (r: Vec<ModuleFlag>)
    ensures
        r@ == flags_of(integral, integral_recursive, anonymous),
{
    let mut flags: Vec<ModuleFlag> = Vec::new();
    if integral {
        flags.push(ModuleFlag::Integral);
    }
    if integral_recursive {
        flags.push(ModuleFlag::IntegralRecursive);
    }
    if anonymous {
        flags.push(ModuleFlag::Anonymous);
    }
    assert(flags@ =~= flags_of(integral, integral_recursive, anonymous));
    flags
}

impl DeriveError {
    /// The text of the error, as the derivation reports it.
    pub fn message(&self) -> (r: &'static str)
        ensures
            r@ == match *self {
                DeriveError::NotAStruct => "#[derive(Module)] may only be used with structs."@,
                DeriveError::NotNamedFields => "#[derive(Module)] can only be used on structs with named fields."@,
                DeriveError::Field { field, error } => match error {
                    FieldAttrError::DuplicateInitWith { attr } => "Only one #[init_with] attribute can be used."@,
                    FieldAttrError::BadInitExpression { attr } => "The arguments of #[init_with] must be an expression."@,
                    FieldAttrError::Conflicting { attr } => "Only one of #[init_with], #[module_info], #[submodule], or #[core_ref] may be used on one field."@,
                },
                DeriveError::DuplicateModuleInfo { field } => "Only one #[module_info] field may be present."@,
                DeriveError::MissingModuleInfo => "At least one field must be marked with #[module_info]."@,
            },
    {
        match self {
            DeriveError::NotAStruct => "#[derive(Module)] may only be used with structs.",
            DeriveError::NotNamedFields => "#[derive(Module)] can only be used on structs with named fields.",
            DeriveError::Field { field, error } => match error {
                FieldAttrError::DuplicateInitWith { attr } => "Only one #[init_with] attribute can be used.",
                FieldAttrError::BadInitExpression { attr } => "The arguments of #[init_with] must be an expression.",
                FieldAttrError::Conflicting { attr } => "Only one of #[init_with], #[module_info], #[submodule], or #[core_ref] may be used on one field.",
            },
            DeriveError::DuplicateModuleInfo { field } => "Only one #[module_info] field may be present.",
            DeriveError::MissingModuleInfo => "At least one field must be marked with #[module_info].",
        }
    }
}

} // verus!
