//! In what language a file is written, as its path tells.
use crate::text;
use vstd::prelude::*;

verus! {

/// The language of a source file.
#[derive(Debug, Clone, Copy, PartialEq, Eq, Structural)]
pub enum Language {
    JavaScript,
    TypeScript,
    TypeScriptDefinition,
}

/// How a source file is loaded.
#[derive(Debug, Clone, Copy, PartialEq, Eq, Structural)]
pub enum ModuleKind {
    Script,
    Module,
    /// What the file holds decides.
    Unambiguous,
    CommonJs,
}

/// Whether a source file may hold JSX.
#[derive(Debug, Clone, Copy, PartialEq, Eq, Structural)]
pub enum LanguageVariant {
    Standard,
    Jsx,
}

/// The extension of a source file.
#[derive(Debug, Clone, Copy, PartialEq, Eq, Structural)]
pub enum Extension {
    Js,
    Mjs,
    Cjs,
    Jsx,
    Ts,
    Mts,
    Cts,
    Tsx,
}

/// How a source file is to be read.
#[derive(Debug, Clone, Copy)]
pub struct SourceKind {
    pub language: Language,
    pub module_kind: ModuleKind,
    pub variant: LanguageVariant,
    pub extension: Option<Extension>,
}

impl SourceKind {
    /// Whether the file is TypeScript, definitions included.
    pub open spec fn typescript(self) -> bool {
        self.language != Language::JavaScript
    }

    /// Whether the file may hold JSX.
    pub open spec fn jsx(self) -> bool {
        self.variant == LanguageVariant::Jsx
    }

    /// Whether the file is TypeScript, definitions included.
    pub fn is_typescript(self) -> (r: bool)
        ensures
            r == self.typescript(),
    {
        self.language != Language::JavaScript
    }

    /// Whether the file may hold JSX.
    pub fn is_jsx(self) -> (r: bool)
        ensures
            r == self.jsx(),
    {
        self.variant == LanguageVariant::Jsx
    }
}

/// A source type of the parser (`oxc_span::SourceType`).
#[verifier::external_type_specification]
#[verifier::external_body]
pub struct ExSourceType(oxc_span::SourceType);

/// A file extension of the parser (`oxc_span::FileExtension`).
#[verifier::external_type_specification]
#[verifier::external_body]
pub struct ExFileExtension(oxc_span::FileExtension);

/// What `oxc_span::SourceType::from_path` says of a path, if it knows the
/// extension.
pub uninterp spec fn kind_from_path(path: Seq<char>) -> Option<SourceKind>;

/// How a file with an extension is read; `declares` tells whether it is one of
/// declarations, which only some TypeScript files can be.
pub open spec fn kind_by(extension: Extension, declares: bool) -> SourceKind {
    SourceKind {
        language: match extension {
            Extension::Js | Extension::Mjs | Extension::Cjs | Extension::Jsx =>
                Language::JavaScript,
            Extension::Tsx => Language::TypeScript,
            Extension::Ts | Extension::Mts | Extension::Cts => if declares {
                Language::TypeScriptDefinition
            } else {
                Language::TypeScript
            },
        },
        module_kind: match extension {
            Extension::Mjs | Extension::Mts => ModuleKind::Module,
            Extension::Cjs | Extension::Cts => ModuleKind::CommonJs,
            _ => ModuleKind::Unambiguous,
        },
        variant: match extension {
            Extension::Jsx | Extension::Tsx => LanguageVariant::Jsx,
            _ => LanguageVariant::Standard,
        },
        extension: Some(extension),
    }
}

/// Whether a file name has something before an ending.
pub open spec fn has_ending(name: Seq<char>, ending: Seq<char>) -> bool {
    ending.is_suffix_of(name) && name.len() > ending.len()
}

/// The extension in a file name, if it is a known one.
pub open spec fn named_extension(name: Seq<char>) -> Option<Extension> {
    if has_ending(name, ".js"@) {
        Some(Extension::Js)
    } else if has_ending(name, ".mjs"@) {
        Some(Extension::Mjs)
    } else if has_ending(name, ".cjs"@) {
        Some(Extension::Cjs)
    } else if has_ending(name, ".jsx"@) {
        Some(Extension::Jsx)
    } else if has_ending(name, ".ts"@) {
        Some(Extension::Ts)
    } else if has_ending(name, ".mts"@) {
        Some(Extension::Mts)
    } else if has_ending(name, ".cts"@) {
        Some(Extension::Cts)
    } else if has_ending(name, ".tsx"@) {
        Some(Extension::Tsx)
    } else {
        None
    }
}

/// Whether a file name is that of a file of declarations: `.d.` in a `.ts`
/// name, anywhere but in front, or `.d` before the other extensions.
pub open spec fn names_declarations(name: Seq<char>) -> bool {
    ||| has_ending(name, ".d.mts"@)
    ||| has_ending(name, ".d.cts"@)
    ||| has_ending(name, ".ts"@) && exists|i: int| 0 < i && #[trigger] text::occurs_at(name, ".d."@, i)
}

/// What a file name says of how the file is read, if it has a known extension.
pub open spec fn kind_of_name(name: Seq<char>) -> Option<SourceKind> {
    match named_extension(name) {
        Some(extension) => Some(kind_by(extension, names_declarations(name))),
        None => None,
    }
}

/// What `oxc_span::SourceType::from_path` says of `path`. It goes by the
/// extension, and by `.d.` in the name of a TypeScript file. What the file
/// name in a path is, is stated where every system cuts the path alike.
#[verifier::external_body]
fn from_path(path: &str) -> (kind: Option<SourceKind>)
    ensures
        kind == kind_from_path(path@),
        text::is_portable_path(path@) ==> kind == kind_of_name(text::last_piece(path@)),
        kind matches Some(k) ==> k.extension is Some && (k == kind_by(k.extension->0, false) || k
            == kind_by(k.extension->0, true)),
{
    match oxc_span::SourceType::from_path(path) {
        Ok(found) => Some(
            SourceKind {
                language: language_of(found),
                module_kind: module_kind_of(found),
                variant: variant_of(found),
                extension: found.extension().map(extension_of),
            },
        ),
        Err(_) => None,
    }
}

/// The language of a source type of the parser.
#[verifier::external_body]
fn language_of(source_type: oxc_span::SourceType) -> (language: Language) {
    if source_type.is_typescript_definition() {
        Language::TypeScriptDefinition
    } else if source_type.is_typescript() {
        Language::TypeScript
    } else {
        Language::JavaScript
    }
}

/// The module kind of a source type of the parser.
#[verifier::external_body]
fn module_kind_of(source_type: oxc_span::SourceType) -> (kind: ModuleKind) {
    match source_type.module_kind() {
        oxc_span::ModuleKind::Script => ModuleKind::Script,
        oxc_span::ModuleKind::Module => ModuleKind::Module,
        oxc_span::ModuleKind::Unambiguous => ModuleKind::Unambiguous,
        oxc_span::ModuleKind::CommonJS => ModuleKind::CommonJs,
    }
}

/// The language variant of a source type of the parser.
#[verifier::external_body]
fn variant_of(source_type: oxc_span::SourceType) -> (variant: LanguageVariant) {
    if source_type.is_jsx() {
        LanguageVariant::Jsx
    } else {
        LanguageVariant::Standard
    }
}

/// A file extension of the parser as one of this crate.
#[verifier::external_body]
fn extension_of(extension: oxc_span::FileExtension) -> (converted: Extension) {
    match extension {
        oxc_span::FileExtension::Js => Extension::Js,
        oxc_span::FileExtension::Mjs => Extension::Mjs,
        oxc_span::FileExtension::Cjs => Extension::Cjs,
        oxc_span::FileExtension::Jsx => Extension::Jsx,
        oxc_span::FileExtension::Ts => Extension::Ts,
        oxc_span::FileExtension::Mts => Extension::Mts,
        oxc_span::FileExtension::Cts => Extension::Cts,
        oxc_span::FileExtension::Tsx => Extension::Tsx,
    }
}

/// A file extension of this crate as one of the parser.
#[verifier::external_body]
fn parser_extension(extension: Extension) -> (converted: oxc_span::FileExtension) {
    match extension {
        Extension::Js => oxc_span::FileExtension::Js,
        Extension::Mjs => oxc_span::FileExtension::Mjs,
        Extension::Cjs => oxc_span::FileExtension::Cjs,
        Extension::Jsx => oxc_span::FileExtension::Jsx,
        Extension::Ts => oxc_span::FileExtension::Ts,
        Extension::Mts => oxc_span::FileExtension::Mts,
        Extension::Cts => oxc_span::FileExtension::Cts,
        Extension::Tsx => oxc_span::FileExtension::Tsx,
    }
}

/// `kind` as the parser takes it: a `SourceType` of the same extension, given
/// the same language, module kind and variant by its `with_` methods.
#[verifier::external_body]
pub(crate) fn parser_source_type(kind: SourceKind) -> (source_type: oxc_span::SourceType) {
    let made = kind.extension.map(|e| oxc_span::SourceType::from(parser_extension(e)));
    let made = made.unwrap_or_default();
    let made = match kind.language {
        Language::JavaScript => made.with_javascript(true),
        Language::TypeScript => made.with_typescript(true),
        Language::TypeScriptDefinition => made.with_typescript_definition(true),
    };
    let made = match kind.module_kind {
        ModuleKind::Script => made.with_script(true),
        ModuleKind::Module => made.with_module(true),
        ModuleKind::Unambiguous => made.with_unambiguous(true),
        ModuleKind::CommonJs => made.with_commonjs(true),
    };
    made.with_standard(true).with_jsx(matches!(kind.variant, LanguageVariant::Jsx))
}

/// How a file whose extension says nothing is read: as a TypeScript module
/// that may hold JSX.
pub open spec fn fallback() -> SourceKind {
    SourceKind {
        language: Language::TypeScript,
        module_kind: ModuleKind::Module,
        variant: LanguageVariant::Jsx,
        extension: None,
    }
}

/// How the file at a path is read.
pub open spec fn source_kind(path: Seq<char>) -> SourceKind {
    let found = if text::is_portable_path(path) {
        kind_of_name(text::last_piece(path))
    } else {
        kind_from_path(path)
    };
    match found {
        Some(kind) => kind,
        None => fallback(),
    }
}

/// How a file is read of which the path said `found`.
pub fn kind_or_fallback(found: Option<SourceKind>) -> (kind: SourceKind)
    ensures
        kind == match found {
            Some(k) => k,
            None => fallback(),
        },
{
    match found {
        Some(kind) => kind,
        None => SourceKind {
            language: Language::TypeScript,
            module_kind: ModuleKind::Module,
            variant: LanguageVariant::Jsx,
            extension: None,
        },
    }
}

/// How the file at `file_path` is read.
pub fn resolve_source_type(file_path: &str) -> (kind: SourceKind)
    ensures
        kind == source_kind(file_path@),
        match kind.extension {
            Some(extension) => kind == kind_by(extension, false) || kind == kind_by(
                extension,
                true,
            ),
            None => kind == fallback(),
        },
{
    kind_or_fallback(from_path(file_path))
}

/// How a file with the extension `.js` is read.
pub proof fn law_files_ending_in_js(stem: Seq<char>)
    requires
        stem.len() > 0,
    ensures
        kind_of_name(stem + ".js"@) == Some(
            SourceKind {
                language: Language::JavaScript,
                module_kind: ModuleKind::Unambiguous,
                variant: LanguageVariant::Standard,
                extension: Some(Extension::Js),
            },
        ),
{
    let name = stem + ".js"@;
    reveal_strlit(".js");
    reveal_strlit(".mjs");
    reveal_strlit(".cjs");
    reveal_strlit(".jsx");
    reveal_strlit(".ts");
    reveal_strlit(".mts");
    reveal_strlit(".cts");
    reveal_strlit(".tsx");
    assert(name.subrange(name.len() - 3, name.len() as int) =~= ".js"@);
    if ".mjs"@.is_suffix_of(name) {
        assert(name.subrange(name.len() - 4, name.len() as int)[1] == ".mjs"@[1]);
    }
    if ".cjs"@.is_suffix_of(name) {
        assert(name.subrange(name.len() - 4, name.len() as int)[1] == ".cjs"@[1]);
    }
    if ".jsx"@.is_suffix_of(name) {
        assert(name.subrange(name.len() - 4, name.len() as int)[3] == ".jsx"@[3]);
    }
    if ".ts"@.is_suffix_of(name) {
        assert(name.subrange(name.len() - 3, name.len() as int)[1] == ".ts"@[1]);
    }
    if ".mts"@.is_suffix_of(name) {
        assert(name.subrange(name.len() - 4, name.len() as int)[2] == ".mts"@[2]);
    }
    if ".cts"@.is_suffix_of(name) {
        assert(name.subrange(name.len() - 4, name.len() as int)[2] == ".cts"@[2]);
    }
    if ".tsx"@.is_suffix_of(name) {
        assert(name.subrange(name.len() - 4, name.len() as int)[3] == ".tsx"@[3]);
    }
    reveal_strlit(".d.mts");
    reveal_strlit(".d.cts");
    if ".d.mts"@.is_suffix_of(name) {
        assert(name.subrange(name.len() - 6, name.len() as int)[4] == ".d.mts"@[4]);
    }
    if ".d.cts"@.is_suffix_of(name) {
        assert(name.subrange(name.len() - 6, name.len() as int)[4] == ".d.cts"@[4]);
    }
}

/// How a file with the extension `.mjs` is read.
pub proof fn law_files_ending_in_mjs(stem: Seq<char>)
    requires
        stem.len() > 0,
    ensures
        kind_of_name(stem + ".mjs"@) == Some(
            SourceKind {
                language: Language::JavaScript,
                module_kind: ModuleKind::Module,
                variant: LanguageVariant::Standard,
                extension: Some(Extension::Mjs),
            },
        ),
{
    let name = stem + ".mjs"@;
    reveal_strlit(".js");
    reveal_strlit(".mjs");
    reveal_strlit(".cjs");
    reveal_strlit(".jsx");
    reveal_strlit(".ts");
    reveal_strlit(".mts");
    reveal_strlit(".cts");
    reveal_strlit(".tsx");
    assert(name.subrange(name.len() - 4, name.len() as int) =~= ".mjs"@);
    if ".js"@.is_suffix_of(name) {
        assert(name.subrange(name.len() - 3, name.len() as int)[0] == ".js"@[0]);
    }
    if ".cjs"@.is_suffix_of(name) {
        assert(name.subrange(name.len() - 4, name.len() as int)[1] == ".cjs"@[1]);
    }
    if ".jsx"@.is_suffix_of(name) {
        assert(name.subrange(name.len() - 4, name.len() as int)[3] == ".jsx"@[3]);
    }
    if ".ts"@.is_suffix_of(name) {
        assert(name.subrange(name.len() - 3, name.len() as int)[1] == ".ts"@[1]);
    }
    if ".mts"@.is_suffix_of(name) {
        assert(name.subrange(name.len() - 4, name.len() as int)[2] == ".mts"@[2]);
    }
    if ".cts"@.is_suffix_of(name) {
        assert(name.subrange(name.len() - 4, name.len() as int)[2] == ".cts"@[2]);
    }
    if ".tsx"@.is_suffix_of(name) {
        assert(name.subrange(name.len() - 4, name.len() as int)[3] == ".tsx"@[3]);
    }
    reveal_strlit(".d.mts");
    reveal_strlit(".d.cts");
    if ".d.mts"@.is_suffix_of(name) {
        assert(name.subrange(name.len() - 6, name.len() as int)[4] == ".d.mts"@[4]);
    }
    if ".d.cts"@.is_suffix_of(name) {
        assert(name.subrange(name.len() - 6, name.len() as int)[4] == ".d.cts"@[4]);
    }
}

/// How a file with the extension `.cjs` is read.
pub proof fn law_files_ending_in_cjs(stem: Seq<char>)
    requires
        stem.len() > 0,
    ensures
        kind_of_name(stem + ".cjs"@) == Some(
            SourceKind {
                language: Language::JavaScript,
                module_kind: ModuleKind::CommonJs,
                variant: LanguageVariant::Standard,
                extension: Some(Extension::Cjs),
            },
        ),
{
    let name = stem + ".cjs"@;
    reveal_strlit(".js");
    reveal_strlit(".mjs");
    reveal_strlit(".cjs");
    reveal_strlit(".jsx");
    reveal_strlit(".ts");
    reveal_strlit(".mts");
    reveal_strlit(".cts");
    reveal_strlit(".tsx");
    assert(name.subrange(name.len() - 4, name.len() as int) =~= ".cjs"@);
    if ".js"@.is_suffix_of(name) {
        assert(name.subrange(name.len() - 3, name.len() as int)[0] == ".js"@[0]);
    }
    if ".mjs"@.is_suffix_of(name) {
        assert(name.subrange(name.len() - 4, name.len() as int)[1] == ".mjs"@[1]);
    }
    if ".jsx"@.is_suffix_of(name) {
        assert(name.subrange(name.len() - 4, name.len() as int)[3] == ".jsx"@[3]);
    }
    if ".ts"@.is_suffix_of(name) {
        assert(name.subrange(name.len() - 3, name.len() as int)[1] == ".ts"@[1]);
    }
    if ".mts"@.is_suffix_of(name) {
        assert(name.subrange(name.len() - 4, name.len() as int)[2] == ".mts"@[2]);
    }
    if ".cts"@.is_suffix_of(name) {
        assert(name.subrange(name.len() - 4, name.len() as int)[2] == ".cts"@[2]);
    }
    if ".tsx"@.is_suffix_of(name) {
        assert(name.subrange(name.len() - 4, name.len() as int)[3] == ".tsx"@[3]);
    }
    reveal_strlit(".d.mts");
    reveal_strlit(".d.cts");
    if ".d.mts"@.is_suffix_of(name) {
        assert(name.subrange(name.len() - 6, name.len() as int)[4] == ".d.mts"@[4]);
    }
    if ".d.cts"@.is_suffix_of(name) {
        assert(name.subrange(name.len() - 6, name.len() as int)[4] == ".d.cts"@[4]);
    }
}

/// How a file with the extension `.jsx` is read.
pub proof fn law_files_ending_in_jsx(stem: Seq<char>)
    requires
        stem.len() > 0,
    ensures
        kind_of_name(stem + ".jsx"@) == Some(
            SourceKind {
                language: Language::JavaScript,
                module_kind: ModuleKind::Unambiguous,
                variant: LanguageVariant::Jsx,
                extension: Some(Extension::Jsx),
            },
        ),
{
    let name = stem + ".jsx"@;
    reveal_strlit(".js");
    reveal_strlit(".mjs");
    reveal_strlit(".cjs");
    reveal_strlit(".jsx");
    reveal_strlit(".ts");
    reveal_strlit(".mts");
    reveal_strlit(".cts");
    reveal_strlit(".tsx");
    assert(name.subrange(name.len() - 4, name.len() as int) =~= ".jsx"@);
    if ".js"@.is_suffix_of(name) {
        assert(name.subrange(name.len() - 3, name.len() as int)[2] == ".js"@[2]);
    }
    if ".mjs"@.is_suffix_of(name) {
        assert(name.subrange(name.len() - 4, name.len() as int)[3] == ".mjs"@[3]);
    }
    if ".cjs"@.is_suffix_of(name) {
        assert(name.subrange(name.len() - 4, name.len() as int)[3] == ".cjs"@[3]);
    }
    if ".ts"@.is_suffix_of(name) {
        assert(name.subrange(name.len() - 3, name.len() as int)[2] == ".ts"@[2]);
    }
    if ".mts"@.is_suffix_of(name) {
        assert(name.subrange(name.len() - 4, name.len() as int)[3] == ".mts"@[3]);
    }
    if ".cts"@.is_suffix_of(name) {
        assert(name.subrange(name.len() - 4, name.len() as int)[3] == ".cts"@[3]);
    }
    if ".tsx"@.is_suffix_of(name) {
        assert(name.subrange(name.len() - 4, name.len() as int)[1] == ".tsx"@[1]);
    }
    reveal_strlit(".d.mts");
    reveal_strlit(".d.cts");
    if ".d.mts"@.is_suffix_of(name) {
        assert(name.subrange(name.len() - 6, name.len() as int)[5] == ".d.mts"@[5]);
    }
    if ".d.cts"@.is_suffix_of(name) {
        assert(name.subrange(name.len() - 6, name.len() as int)[5] == ".d.cts"@[5]);
    }
}

/// How a file with the extension `.ts` is read, unless its name holds `.d.`.
pub proof fn law_files_ending_in_ts(stem: Seq<char>)
    requires
        stem.len() > 0,
        !text::has_infix(stem + ".ts"@, ".d."@),
    ensures
        kind_of_name(stem + ".ts"@) == Some(
            SourceKind {
                language: Language::TypeScript,
                module_kind: ModuleKind::Unambiguous,
                variant: LanguageVariant::Standard,
                extension: Some(Extension::Ts),
            },
        ),
{
    let name = stem + ".ts"@;
    reveal_strlit(".js");
    reveal_strlit(".mjs");
    reveal_strlit(".cjs");
    reveal_strlit(".jsx");
    reveal_strlit(".ts");
    reveal_strlit(".mts");
    reveal_strlit(".cts");
    reveal_strlit(".tsx");
    assert(name.subrange(name.len() - 3, name.len() as int) =~= ".ts"@);
    if ".js"@.is_suffix_of(name) {
        assert(name.subrange(name.len() - 3, name.len() as int)[1] == ".js"@[1]);
    }
    if ".mjs"@.is_suffix_of(name) {
        assert(name.subrange(name.len() - 4, name.len() as int)[2] == ".mjs"@[2]);
    }
    if ".cjs"@.is_suffix_of(name) {
        assert(name.subrange(name.len() - 4, name.len() as int)[2] == ".cjs"@[2]);
    }
    if ".jsx"@.is_suffix_of(name) {
        assert(name.subrange(name.len() - 4, name.len() as int)[3] == ".jsx"@[3]);
    }
    if ".mts"@.is_suffix_of(name) {
        assert(name.subrange(name.len() - 4, name.len() as int)[1] == ".mts"@[1]);
    }
    if ".cts"@.is_suffix_of(name) {
        assert(name.subrange(name.len() - 4, name.len() as int)[1] == ".cts"@[1]);
    }
    if ".tsx"@.is_suffix_of(name) {
        assert(name.subrange(name.len() - 4, name.len() as int)[3] == ".tsx"@[3]);
    }
    reveal_strlit(".d.");
    reveal_strlit(".d.mts");
    reveal_strlit(".d.cts");
    if has_ending(name, ".d.mts"@) {
        assert(name.subrange(name.len() - 6, name.len() as int) == ".d.mts"@);
        assert(name.subrange(name.len() - 6, name.len() - 3) =~= ".d."@) by {
            assert forall|k: int| 0 <= k < 3 implies name[name.len() - 6 + k] == ".d."@[k] by {
                assert(name.subrange(name.len() - 6, name.len() as int)[k] == ".d.mts"@[k]);
            }
        }
        assert(text::occurs_at(name, ".d."@, name.len() - 6));
    }
    if has_ending(name, ".d.cts"@) {
        assert(name.subrange(name.len() - 6, name.len() as int) == ".d.cts"@);
        assert(name.subrange(name.len() - 6, name.len() - 3) =~= ".d."@) by {
            assert forall|k: int| 0 <= k < 3 implies name[name.len() - 6 + k] == ".d."@[k] by {
                assert(name.subrange(name.len() - 6, name.len() as int)[k] == ".d.cts"@[k]);
            }
        }
        assert(text::occurs_at(name, ".d."@, name.len() - 6));
    }
}

/// How a file with the extension `.mts` is read, unless its name holds `.d.`.
pub proof fn law_files_ending_in_mts(stem: Seq<char>)
    requires
        stem.len() > 0,
        !text::has_infix(stem + ".mts"@, ".d."@),
    ensures
        kind_of_name(stem + ".mts"@) == Some(
            SourceKind {
                language: Language::TypeScript,
                module_kind: ModuleKind::Module,
                variant: LanguageVariant::Standard,
                extension: Some(Extension::Mts),
            },
        ),
{
    let name = stem + ".mts"@;
    reveal_strlit(".js");
    reveal_strlit(".mjs");
    reveal_strlit(".cjs");
    reveal_strlit(".jsx");
    reveal_strlit(".ts");
    reveal_strlit(".mts");
    reveal_strlit(".cts");
    reveal_strlit(".tsx");
    assert(name.subrange(name.len() - 4, name.len() as int) =~= ".mts"@);
    if ".js"@.is_suffix_of(name) {
        assert(name.subrange(name.len() - 3, name.len() as int)[1] == ".js"@[1]);
    }
    if ".mjs"@.is_suffix_of(name) {
        assert(name.subrange(name.len() - 4, name.len() as int)[2] == ".mjs"@[2]);
    }
    if ".cjs"@.is_suffix_of(name) {
        assert(name.subrange(name.len() - 4, name.len() as int)[2] == ".cjs"@[2]);
    }
    if ".jsx"@.is_suffix_of(name) {
        assert(name.subrange(name.len() - 4, name.len() as int)[3] == ".jsx"@[3]);
    }
    if ".ts"@.is_suffix_of(name) {
        assert(name.subrange(name.len() - 3, name.len() as int)[0] == ".ts"@[0]);
    }
    if ".cts"@.is_suffix_of(name) {
        assert(name.subrange(name.len() - 4, name.len() as int)[1] == ".cts"@[1]);
    }
    if ".tsx"@.is_suffix_of(name) {
        assert(name.subrange(name.len() - 4, name.len() as int)[3] == ".tsx"@[3]);
    }
    reveal_strlit(".d.");
    reveal_strlit(".d.mts");
    reveal_strlit(".d.cts");
    if has_ending(name, ".d.mts"@) {
        assert(name.subrange(name.len() - 6, name.len() as int) == ".d.mts"@);
        assert(name.subrange(name.len() - 6, name.len() - 3) =~= ".d."@) by {
            assert forall|k: int| 0 <= k < 3 implies name[name.len() - 6 + k] == ".d."@[k] by {
                assert(name.subrange(name.len() - 6, name.len() as int)[k] == ".d.mts"@[k]);
            }
        }
        assert(text::occurs_at(name, ".d."@, name.len() - 6));
    }
    if has_ending(name, ".d.cts"@) {
        assert(name.subrange(name.len() - 6, name.len() as int) == ".d.cts"@);
        assert(name.subrange(name.len() - 6, name.len() - 3) =~= ".d."@) by {
            assert forall|k: int| 0 <= k < 3 implies name[name.len() - 6 + k] == ".d."@[k] by {
                assert(name.subrange(name.len() - 6, name.len() as int)[k] == ".d.cts"@[k]);
            }
        }
        assert(text::occurs_at(name, ".d."@, name.len() - 6));
    }
}

/// How a file with the extension `.cts` is read, unless its name holds `.d.`.
pub proof fn law_files_ending_in_cts(stem: Seq<char>)
    requires
        stem.len() > 0,
        !text::has_infix(stem + ".cts"@, ".d."@),
    ensures
        kind_of_name(stem + ".cts"@) == Some(
            SourceKind {
                language: Language::TypeScript,
                module_kind: ModuleKind::CommonJs,
                variant: LanguageVariant::Standard,
                extension: Some(Extension::Cts),
            },
        ),
{
    let name = stem + ".cts"@;
    reveal_strlit(".js");
    reveal_strlit(".mjs");
    reveal_strlit(".cjs");
    reveal_strlit(".jsx");
    reveal_strlit(".ts");
    reveal_strlit(".mts");
    reveal_strlit(".cts");
    reveal_strlit(".tsx");
    assert(name.subrange(name.len() - 4, name.len() as int) =~= ".cts"@);
    if ".js"@.is_suffix_of(name) {
        assert(name.subrange(name.len() - 3, name.len() as int)[1] == ".js"@[1]);
    }
    if ".mjs"@.is_suffix_of(name) {
        assert(name.subrange(name.len() - 4, name.len() as int)[2] == ".mjs"@[2]);
    }
    if ".cjs"@.is_suffix_of(name) {
        assert(name.subrange(name.len() - 4, name.len() as int)[2] == ".cjs"@[2]);
    }
    if ".jsx"@.is_suffix_of(name) {
        assert(name.subrange(name.len() - 4, name.len() as int)[3] == ".jsx"@[3]);
    }
    if ".ts"@.is_suffix_of(name) {
        assert(name.subrange(name.len() - 3, name.len() as int)[0] == ".ts"@[0]);
    }
    if ".mts"@.is_suffix_of(name) {
        assert(name.subrange(name.len() - 4, name.len() as int)[1] == ".mts"@[1]);
    }
    if ".tsx"@.is_suffix_of(name) {
        assert(name.subrange(name.len() - 4, name.len() as int)[3] == ".tsx"@[3]);
    }
    reveal_strlit(".d.");
    reveal_strlit(".d.mts");
    reveal_strlit(".d.cts");
    if has_ending(name, ".d.mts"@) {
        assert(name.subrange(name.len() - 6, name.len() as int) == ".d.mts"@);
        assert(name.subrange(name.len() - 6, name.len() - 3) =~= ".d."@) by {
            assert forall|k: int| 0 <= k < 3 implies name[name.len() - 6 + k] == ".d."@[k] by {
                assert(name.subrange(name.len() - 6, name.len() as int)[k] == ".d.mts"@[k]);
            }
        }
        assert(text::occurs_at(name, ".d."@, name.len() - 6));
    }
    if has_ending(name, ".d.cts"@) {
        assert(name.subrange(name.len() - 6, name.len() as int) == ".d.cts"@);
        assert(name.subrange(name.len() - 6, name.len() - 3) =~= ".d."@) by {
            assert forall|k: int| 0 <= k < 3 implies name[name.len() - 6 + k] == ".d."@[k] by {
                assert(name.subrange(name.len() - 6, name.len() as int)[k] == ".d.cts"@[k]);
            }
        }
        assert(text::occurs_at(name, ".d."@, name.len() - 6));
    }
}

/// How a file with the extension `.tsx` is read, unless its name holds `.d.`.
pub proof fn law_files_ending_in_tsx(stem: Seq<char>)
    requires
        stem.len() > 0,
        !text::has_infix(stem + ".tsx"@, ".d."@),
    ensures
        kind_of_name(stem + ".tsx"@) == Some(
            SourceKind {
                language: Language::TypeScript,
                module_kind: ModuleKind::Unambiguous,
                variant: LanguageVariant::Jsx,
                extension: Some(Extension::Tsx),
            },
        ),
{
    let name = stem + ".tsx"@;
    reveal_strlit(".js");
    reveal_strlit(".mjs");
    reveal_strlit(".cjs");
    reveal_strlit(".jsx");
    reveal_strlit(".ts");
    reveal_strlit(".mts");
    reveal_strlit(".cts");
    reveal_strlit(".tsx");
    assert(name.subrange(name.len() - 4, name.len() as int) =~= ".tsx"@);
    if ".js"@.is_suffix_of(name) {
        assert(name.subrange(name.len() - 3, name.len() as int)[2] == ".js"@[2]);
    }
    if ".mjs"@.is_suffix_of(name) {
        assert(name.subrange(name.len() - 4, name.len() as int)[3] == ".mjs"@[3]);
    }
    if ".cjs"@.is_suffix_of(name) {
        assert(name.subrange(name.len() - 4, name.len() as int)[3] == ".cjs"@[3]);
    }
    if ".jsx"@.is_suffix_of(name) {
        assert(name.subrange(name.len() - 4, name.len() as int)[1] == ".jsx"@[1]);
    }
    if ".ts"@.is_suffix_of(name) {
        assert(name.subrange(name.len() - 3, name.len() as int)[2] == ".ts"@[2]);
    }
    if ".mts"@.is_suffix_of(name) {
        assert(name.subrange(name.len() - 4, name.len() as int)[3] == ".mts"@[3]);
    }
    if ".cts"@.is_suffix_of(name) {
        assert(name.subrange(name.len() - 4, name.len() as int)[3] == ".cts"@[3]);
    }
    reveal_strlit(".d.");
    reveal_strlit(".d.mts");
    reveal_strlit(".d.cts");
    if has_ending(name, ".d.mts"@) {
        assert(name.subrange(name.len() - 6, name.len() as int) == ".d.mts"@);
        assert(name.subrange(name.len() - 6, name.len() - 3) =~= ".d."@) by {
            assert forall|k: int| 0 <= k < 3 implies name[name.len() - 6 + k] == ".d."@[k] by {
                assert(name.subrange(name.len() - 6, name.len() as int)[k] == ".d.mts"@[k]);
            }
        }
        assert(text::occurs_at(name, ".d."@, name.len() - 6));
    }
    if has_ending(name, ".d.cts"@) {
        assert(name.subrange(name.len() - 6, name.len() as int) == ".d.cts"@);
        assert(name.subrange(name.len() - 6, name.len() - 3) =~= ".d."@) by {
            assert forall|k: int| 0 <= k < 3 implies name[name.len() - 6 + k] == ".d."@[k] by {
                assert(name.subrange(name.len() - 6, name.len() as int)[k] == ".d.cts"@[k]);
            }
        }
        assert(text::occurs_at(name, ".d."@, name.len() - 6));
    }
}

/// How a file with the ending `.d.ts` is read: as one of declarations.
pub proof fn law_files_ending_in_d_ts(stem: Seq<char>)
    requires
        stem.len() > 0,
    ensures
        kind_of_name(stem + ".d.ts"@) == Some(
            SourceKind {
                language: Language::TypeScriptDefinition,
                module_kind: ModuleKind::Unambiguous,
                variant: LanguageVariant::Standard,
                extension: Some(Extension::Ts),
            },
        ),
{
    let name = stem + ".d.ts"@;
    reveal_strlit(".js");
    reveal_strlit(".mjs");
    reveal_strlit(".cjs");
    reveal_strlit(".jsx");
    reveal_strlit(".ts");
    reveal_strlit(".mts");
    reveal_strlit(".cts");
    reveal_strlit(".tsx");
    reveal_strlit(".d.");
    reveal_strlit(".d.ts");
    assert(name.subrange(name.len() - 5, name.len() as int) =~= ".d.ts"@);
    assert(name.subrange(name.len() - 3, name.len() as int) =~= ".ts"@);
    assert(name.subrange(name.len() - 5, name.len() - 2) =~= ".d."@);
    assert(text::occurs_at(name, ".d."@, name.len() - 5));
    if ".js"@.is_suffix_of(name) {
        assert(name.subrange(name.len() - 3, name.len() as int)[1] == ".js"@[1]);
    }
    if ".mjs"@.is_suffix_of(name) {
        assert(name.subrange(name.len() - 4, name.len() as int)[2] == ".mjs"@[2]);
    }
    if ".cjs"@.is_suffix_of(name) {
        assert(name.subrange(name.len() - 4, name.len() as int)[2] == ".cjs"@[2]);
    }
    if ".jsx"@.is_suffix_of(name) {
        assert(name.subrange(name.len() - 4, name.len() as int)[3] == ".jsx"@[3]);
    }
    if ".mts"@.is_suffix_of(name) {
        assert(name.subrange(name.len() - 4, name.len() as int)[1] == ".mts"@[1]);
    }
    if ".cts"@.is_suffix_of(name) {
        assert(name.subrange(name.len() - 4, name.len() as int)[1] == ".cts"@[1]);
    }
    if ".tsx"@.is_suffix_of(name) {
        assert(name.subrange(name.len() - 4, name.len() as int)[3] == ".tsx"@[3]);
    }
}

/// How a file with the ending `.d.mts` is read: as one of declarations.
pub proof fn law_files_ending_in_d_mts(stem: Seq<char>)
    requires
        stem.len() > 0,
    ensures
        kind_of_name(stem + ".d.mts"@) == Some(
            SourceKind {
                language: Language::TypeScriptDefinition,
                module_kind: ModuleKind::Module,
                variant: LanguageVariant::Standard,
                extension: Some(Extension::Mts),
            },
        ),
{
    let name = stem + ".d.mts"@;
    reveal_strlit(".js");
    reveal_strlit(".mjs");
    reveal_strlit(".cjs");
    reveal_strlit(".jsx");
    reveal_strlit(".ts");
    reveal_strlit(".mts");
    reveal_strlit(".cts");
    reveal_strlit(".tsx");
    reveal_strlit(".d.");
    reveal_strlit(".d.mts");
    assert(name.subrange(name.len() - 6, name.len() as int) =~= ".d.mts"@);
    assert(name.subrange(name.len() - 4, name.len() as int) =~= ".mts"@);
    assert(name.subrange(name.len() - 6, name.len() - 3) =~= ".d."@);
    assert(text::occurs_at(name, ".d."@, name.len() - 6));
    if ".js"@.is_suffix_of(name) {
        assert(name.subrange(name.len() - 3, name.len() as int)[1] == ".js"@[1]);
    }
    if ".mjs"@.is_suffix_of(name) {
        assert(name.subrange(name.len() - 4, name.len() as int)[2] == ".mjs"@[2]);
    }
    if ".cjs"@.is_suffix_of(name) {
        assert(name.subrange(name.len() - 4, name.len() as int)[2] == ".cjs"@[2]);
    }
    if ".jsx"@.is_suffix_of(name) {
        assert(name.subrange(name.len() - 4, name.len() as int)[3] == ".jsx"@[3]);
    }
    if ".ts"@.is_suffix_of(name) {
        assert(name.subrange(name.len() - 3, name.len() as int)[0] == ".ts"@[0]);
    }
    if ".cts"@.is_suffix_of(name) {
        assert(name.subrange(name.len() - 4, name.len() as int)[1] == ".cts"@[1]);
    }
    if ".tsx"@.is_suffix_of(name) {
        assert(name.subrange(name.len() - 4, name.len() as int)[3] == ".tsx"@[3]);
    }
}

/// How a file with the ending `.d.cts` is read: as one of declarations.
pub proof fn law_files_ending_in_d_cts(stem: Seq<char>)
    requires
        stem.len() > 0,
    ensures
        kind_of_name(stem + ".d.cts"@) == Some(
            SourceKind {
                language: Language::TypeScriptDefinition,
                module_kind: ModuleKind::CommonJs,
                variant: LanguageVariant::Standard,
                extension: Some(Extension::Cts),
            },
        ),
{
    let name = stem + ".d.cts"@;
    reveal_strlit(".js");
    reveal_strlit(".mjs");
    reveal_strlit(".cjs");
    reveal_strlit(".jsx");
    reveal_strlit(".ts");
    reveal_strlit(".mts");
    reveal_strlit(".cts");
    reveal_strlit(".tsx");
    reveal_strlit(".d.");
    reveal_strlit(".d.cts");
    assert(name.subrange(name.len() - 6, name.len() as int) =~= ".d.cts"@);
    assert(name.subrange(name.len() - 4, name.len() as int) =~= ".cts"@);
    assert(name.subrange(name.len() - 6, name.len() - 3) =~= ".d."@);
    assert(text::occurs_at(name, ".d."@, name.len() - 6));
    if ".js"@.is_suffix_of(name) {
        assert(name.subrange(name.len() - 3, name.len() as int)[1] == ".js"@[1]);
    }
    if ".mjs"@.is_suffix_of(name) {
        assert(name.subrange(name.len() - 4, name.len() as int)[2] == ".mjs"@[2]);
    }
    if ".cjs"@.is_suffix_of(name) {
        assert(name.subrange(name.len() - 4, name.len() as int)[2] == ".cjs"@[2]);
    }
    if ".jsx"@.is_suffix_of(name) {
        assert(name.subrange(name.len() - 4, name.len() as int)[3] == ".jsx"@[3]);
    }
    if ".ts"@.is_suffix_of(name) {
        assert(name.subrange(name.len() - 3, name.len() as int)[0] == ".ts"@[0]);
    }
    if ".mts"@.is_suffix_of(name) {
        assert(name.subrange(name.len() - 4, name.len() as int)[1] == ".mts"@[1]);
    }
    if ".tsx"@.is_suffix_of(name) {
        assert(name.subrange(name.len() - 4, name.len() as int)[3] == ".tsx"@[3]);
    }
}

/// A file whose path says nothing that is known is read as a TypeScript module
/// that may hold JSX; any other is read as its path says.
pub proof fn law_unknown_files_are_read_as_typescript(path: Seq<char>)
    requires
        text::is_portable_path(path),
    ensures
        kind_of_name(text::last_piece(path)) is None ==> source_kind(path) == (SourceKind {
            language: Language::TypeScript,
            module_kind: ModuleKind::Module,
            variant: LanguageVariant::Jsx,
            extension: None,
        }),
        kind_of_name(text::last_piece(path)) matches Some(kind) ==> source_kind(path) == kind,
{
}

/// A file is TypeScript unless it is JavaScript, and may hold JSX exactly if it
/// is of that variant.
pub proof fn law_what_a_kind_says(kind: SourceKind)
    ensures
        kind.typescript() <==> kind.language == Language::TypeScript || kind.language
            == Language::TypeScriptDefinition,
        kind.jsx() <==> kind.variant == LanguageVariant::Jsx,
{
}

/// A TypeScript file is one of declarations if `.d.` stands anywhere in its name
/// but in front.
pub proof fn law_declarations_are_told_by_their_name(stem: Seq<char>, at: int)
    requires
        at > 0,
        text::occurs_at(stem + ".ts"@, ".d."@, at),
    ensures
        kind_of_name(stem + ".ts"@) == Some(
            SourceKind {
                language: Language::TypeScriptDefinition,
                module_kind: ModuleKind::Unambiguous,
                variant: LanguageVariant::Standard,
                extension: Some(Extension::Ts),
            },
        ),
{
    let name = stem + ".ts"@;
    reveal_strlit(".js");
    reveal_strlit(".mjs");
    reveal_strlit(".cjs");
    reveal_strlit(".jsx");
    reveal_strlit(".ts");
    reveal_strlit(".d.");
    assert(name.subrange(name.len() - 3, name.len() as int) =~= ".ts"@);
    assert(name[name.len() - 2] == 't');
    if ".js"@.is_suffix_of(name) {
        assert(name.subrange(name.len() - 3, name.len() as int)[1] == ".js"@[1]);
    }
    if ".mjs"@.is_suffix_of(name) {
        assert(name.subrange(name.len() - 4, name.len() as int)[2] == ".mjs"@[2]);
    }
    if ".cjs"@.is_suffix_of(name) {
        assert(name.subrange(name.len() - 4, name.len() as int)[2] == ".cjs"@[2]);
    }
    if ".jsx"@.is_suffix_of(name) {
        assert(name.subrange(name.len() - 4, name.len() as int)[3] == ".jsx"@[3]);
    }
}

/// A name says how a file is read only if one of the known extensions stands
/// behind something in it.
pub proof fn law_only_known_extensions_say_anything(name: Seq<char>)
    ensures
        kind_of_name(name) is Some <==> {
            ||| ".js"@.is_suffix_of(name) && name.len() > ".js"@.len()
            ||| ".mjs"@.is_suffix_of(name) && name.len() > ".mjs"@.len()
            ||| ".cjs"@.is_suffix_of(name) && name.len() > ".cjs"@.len()
            ||| ".jsx"@.is_suffix_of(name) && name.len() > ".jsx"@.len()
            ||| ".ts"@.is_suffix_of(name) && name.len() > ".ts"@.len()
            ||| ".mts"@.is_suffix_of(name) && name.len() > ".mts"@.len()
            ||| ".cts"@.is_suffix_of(name) && name.len() > ".cts"@.len()
            ||| ".tsx"@.is_suffix_of(name) && name.len() > ".tsx"@.len()
        },
{
}

} // verus!
