//! Base16/Base24 themes: palettes, semantic color mappings, CSS generation,
//! validation, inheritance and overrides, and the built-in theme set.

use vstd::prelude::*;

use crate::places::{config_dir, home_dir};
use crate::paths::join_spec;
use crate::commands::{trim_suffixes, without_suffixes};
use crate::list::occurs_in;
use crate::sorted::{sorted_unique, string_views, strictly_sorted};
use crate::text::{chars_of, ends_with, has_prefix, has_suffix, owned, slice_chars, starts_with, str_eq, string_of};

verus! {

broadcast use vstd::string::group_string_axioms;

/// Theme system type (base16, base24, or custom).
#[derive(Debug, Clone, Copy, PartialEq, Eq, Structural)]
pub enum ThemeSystem {
    Base16,
    Base24,
    Custom,
}

impl Default for ThemeSystem {
    fn default() -> (r: Self)
        ensures
            r == ThemeSystem::Base16,
    {
        ThemeSystem::Base16
    }
}

/// Theme variant (light or dark).
#[derive(Debug, Clone, Copy, PartialEq, Eq, Structural)]
pub enum ThemeVariant {
    Light,
    Dark,
}

/// Color palette containing base16/base24 colors.
#[derive(Debug, Clone)]
pub struct ThemePalette {
    pub base00: Option<String>,
    pub base01: Option<String>,
    pub base02: Option<String>,
    pub base03: Option<String>,
    pub base04: Option<String>,
    pub base05: Option<String>,
    pub base06: Option<String>,
    pub base07: Option<String>,
    pub base08: Option<String>,
    pub base09: Option<String>,
    pub base0a: Option<String>,
    pub base0b: Option<String>,
    pub base0c: Option<String>,
    pub base0d: Option<String>,
    pub base0e: Option<String>,
    pub base0f: Option<String>,
    pub base10: Option<String>,
    pub base11: Option<String>,
    pub base12: Option<String>,
    pub base13: Option<String>,
    pub base14: Option<String>,
    pub base15: Option<String>,
    pub base16: Option<String>,
    pub base17: Option<String>,
}

/// The characters of an optional string.
pub open spec fn opt_chars(o: Option<String>) -> Option<Seq<char>> {
    match o {
        Some(s) => Some(s@),
        None => None,
    }
}

/// A palette with no color set.
pub open spec fn empty_palette() -> ThemePalette {
    ThemePalette {
        base00: None,
        base01: None,
        base02: None,
        base03: None,
        base04: None,
        base05: None,
        base06: None,
        base07: None,
        base08: None,
        base09: None,
        base0a: None,
        base0b: None,
        base0c: None,
        base0d: None,
        base0e: None,
        base0f: None,
        base10: None,
        base11: None,
        base12: None,
        base13: None,
        base14: None,
        base15: None,
        base16: None,
        base17: None,
    }
}

impl Default for ThemePalette {
    fn default() -> (r: Self)
        ensures
            r == empty_palette(),
    {
        ThemePalette {
            base00: None,
            base01: None,
            base02: None,
            base03: None,
            base04: None,
            base05: None,
            base06: None,
            base07: None,
            base08: None,
            base09: None,
            base0a: None,
            base0b: None,
            base0c: None,
            base0d: None,
            base0e: None,
            base0f: None,
            base10: None,
            base11: None,
            base12: None,
            base13: None,
            base14: None,
            base15: None,
            base16: None,
            base17: None,
        }
    }
}

/// The palette color that a base color name (`"base00"` .. `"base17"`,
/// hex digits of the second position in upper case) refers to.
pub open spec fn palette_color(p: ThemePalette, name: Seq<char>) -> Option<Seq<char>> {
    if name == "base00"@ {
        opt_chars(p.base00)
    } else if name == "base01"@ {
        opt_chars(p.base01)
    } else if name == "base02"@ {
        opt_chars(p.base02)
    } else if name == "base03"@ {
        opt_chars(p.base03)
    } else if name == "base04"@ {
        opt_chars(p.base04)
    } else if name == "base05"@ {
        opt_chars(p.base05)
    } else if name == "base06"@ {
        opt_chars(p.base06)
    } else if name == "base07"@ {
        opt_chars(p.base07)
    } else if name == "base08"@ {
        opt_chars(p.base08)
    } else if name == "base09"@ {
        opt_chars(p.base09)
    } else if name == "base0A"@ {
        opt_chars(p.base0a)
    } else if name == "base0B"@ {
        opt_chars(p.base0b)
    } else if name == "base0C"@ {
        opt_chars(p.base0c)
    } else if name == "base0D"@ {
        opt_chars(p.base0d)
    } else if name == "base0E"@ {
        opt_chars(p.base0e)
    } else if name == "base0F"@ {
        opt_chars(p.base0f)
    } else if name == "base10"@ {
        opt_chars(p.base10)
    } else if name == "base11"@ {
        opt_chars(p.base11)
    } else if name == "base12"@ {
        opt_chars(p.base12)
    } else if name == "base13"@ {
        opt_chars(p.base13)
    } else if name == "base14"@ {
        opt_chars(p.base14)
    } else if name == "base15"@ {
        opt_chars(p.base15)
    } else if name == "base16"@ {
        opt_chars(p.base16)
    } else if name == "base17"@ {
        opt_chars(p.base17)
    } else {
        None
    }
}

/// Semantic color mappings: each field names a palette color (e.g. `"base0D"`).
#[derive(Debug, Clone)]
pub struct SemanticColors {
    pub background: String,
    pub foreground: String,
    pub primary: String,
    pub secondary: String,
    pub accent: String,
    pub muted: String,
    pub border: String,
    pub success: String,
    pub warning: String,
    pub error: String,
    pub info: String,
}

/// The palette color that a semantic role refers to by default.
pub fn default_background() -> (r: String)
    ensures
        r@ == "base00"@,
{
    owned("base00")
}

pub fn default_foreground() -> (r: String)
    ensures
        r@ == "base05"@,
{
    owned("base05")
}

pub fn default_primary() -> (r: String)
    ensures
        r@ == "base0D"@,
{
    owned("base0D")
}

pub fn default_secondary() -> (r: String)
    ensures
        r@ == "base06"@,
{
    owned("base06")
}

pub fn default_accent() -> (r: String)
    ensures
        r@ == "base0E"@,
{
    owned("base0E")
}

pub fn default_muted() -> (r: String)
    ensures
        r@ == "base03"@,
{
    owned("base03")
}

pub fn default_border() -> (r: String)
    ensures
        r@ == "base02"@,
{
    owned("base02")
}

pub fn default_success() -> (r: String)
    ensures
        r@ == "base0B"@,
{
    owned("base0B")
}

pub fn default_warning() -> (r: String)
    ensures
        r@ == "base0A"@,
{
    owned("base0A")
}

pub fn default_error() -> (r: String)
    ensures
        r@ == "base08"@,
{
    owned("base08")
}

pub fn default_info() -> (r: String)
    ensures
        r@ == "base0C"@,
{
    owned("base0C")
}

/// Whether `s` is the default semantic mapping.
pub open spec fn is_default_semantic(s: SemanticColors) -> bool {
    &&& s.background@ == "base00"@
    &&& s.foreground@ == "base05"@
    &&& s.primary@ == "base0D"@
    &&& s.secondary@ == "base06"@
    &&& s.accent@ == "base0E"@
    &&& s.muted@ == "base03"@
    &&& s.border@ == "base02"@
    &&& s.success@ == "base0B"@
    &&& s.warning@ == "base0A"@
    &&& s.error@ == "base08"@
    &&& s.info@ == "base0C"@
}

impl Default for SemanticColors {
    fn default() -> (r: Self)
        ensures
            is_default_semantic(r),
    {
        SemanticColors {
            background: default_background(),
            foreground: default_foreground(),
            primary: default_primary(),
            secondary: default_secondary(),
            accent: default_accent(),
            muted: default_muted(),
            border: default_border(),
            success: default_success(),
            warning: default_warning(),
            error: default_error(),
            info: default_info(),
        }
    }
}

/// The palette color name that a semantic role (`"background"`, ...) maps to.
pub open spec fn semantic_target(s: SemanticColors, role: Seq<char>) -> Option<Seq<char>> {
    if role == "background"@ {
        Some(s.background@)
    } else if role == "foreground"@ {
        Some(s.foreground@)
    } else if role == "primary"@ {
        Some(s.primary@)
    } else if role == "secondary"@ {
        Some(s.secondary@)
    } else if role == "accent"@ {
        Some(s.accent@)
    } else if role == "muted"@ {
        Some(s.muted@)
    } else if role == "border"@ {
        Some(s.border@)
    } else if role == "success"@ {
        Some(s.success@)
    } else if role == "warning"@ {
        Some(s.warning@)
    } else if role == "error"@ {
        Some(s.error@)
    } else if role == "info"@ {
        Some(s.info@)
    } else {
        None
    }
}

/// Each of the eleven semantic roles is resolved through its own field of
/// the semantic colors.
pub proof fn lemma_semantic_roles(s: SemanticColors)
    ensures
        semantic_target(s, "background"@) == Some(s.background@),
        semantic_target(s, "foreground"@) == Some(s.foreground@),
        semantic_target(s, "primary"@) == Some(s.primary@),
        semantic_target(s, "secondary"@) == Some(s.secondary@),
        semantic_target(s, "accent"@) == Some(s.accent@),
        semantic_target(s, "muted"@) == Some(s.muted@),
        semantic_target(s, "border"@) == Some(s.border@),
        semantic_target(s, "success"@) == Some(s.success@),
        semantic_target(s, "warning"@) == Some(s.warning@),
        semantic_target(s, "error"@) == Some(s.error@),
        semantic_target(s, "info"@) == Some(s.info@),
{
    reveal_strlit("background");
    reveal_strlit("foreground");
    reveal_strlit("primary");
    reveal_strlit("secondary");
    reveal_strlit("accent");
    reveal_strlit("muted");
    reveal_strlit("border");
    reveal_strlit("success");
    reveal_strlit("warning");
    reveal_strlit("error");
    reveal_strlit("info");
    assert("foreground"@[0] != "background"@[0]);
    assert("primary"@.len() != "background"@.len());
    assert("primary"@.len() != "foreground"@.len());
    assert("secondary"@.len() != "background"@.len());
    assert("secondary"@.len() != "foreground"@.len());
    assert("secondary"@.len() != "primary"@.len());
    assert("accent"@.len() != "background"@.len());
    assert("accent"@.len() != "foreground"@.len());
    assert("accent"@.len() != "primary"@.len());
    assert("accent"@.len() != "secondary"@.len());
    assert("muted"@.len() != "background"@.len());
    assert("muted"@.len() != "foreground"@.len());
    assert("muted"@.len() != "primary"@.len());
    assert("muted"@.len() != "secondary"@.len());
    assert("muted"@.len() != "accent"@.len());
    assert("border"@.len() != "background"@.len());
    assert("border"@.len() != "foreground"@.len());
    assert("border"@.len() != "primary"@.len());
    assert("border"@.len() != "secondary"@.len());
    assert("border"@[0] != "accent"@[0]);
    assert("border"@.len() != "muted"@.len());
    assert("success"@.len() != "background"@.len());
    assert("success"@.len() != "foreground"@.len());
    assert("success"@[0] != "primary"@[0]);
    assert("success"@.len() != "secondary"@.len());
    assert("success"@.len() != "accent"@.len());
    assert("success"@.len() != "muted"@.len());
    assert("success"@.len() != "border"@.len());
    assert("warning"@.len() != "background"@.len());
    assert("warning"@.len() != "foreground"@.len());
    assert("warning"@[0] != "primary"@[0]);
    assert("warning"@.len() != "secondary"@.len());
    assert("warning"@.len() != "accent"@.len());
    assert("warning"@.len() != "muted"@.len());
    assert("warning"@.len() != "border"@.len());
    assert("warning"@[0] != "success"@[0]);
    assert("error"@.len() != "background"@.len());
    assert("error"@.len() != "foreground"@.len());
    assert("error"@.len() != "primary"@.len());
    assert("error"@.len() != "secondary"@.len());
    assert("error"@.len() != "accent"@.len());
    assert("error"@[0] != "muted"@[0]);
    assert("error"@.len() != "border"@.len());
    assert("error"@.len() != "success"@.len());
    assert("error"@.len() != "warning"@.len());
    assert("info"@.len() != "background"@.len());
    assert("info"@.len() != "foreground"@.len());
    assert("info"@.len() != "primary"@.len());
    assert("info"@.len() != "secondary"@.len());
    assert("info"@.len() != "accent"@.len());
    assert("info"@.len() != "muted"@.len());
    assert("info"@.len() != "border"@.len());
    assert("info"@.len() != "success"@.len());
    assert("info"@.len() != "warning"@.len());
    assert("info"@.len() != "error"@.len());
}

/// Theme variant configuration for light/dark mode.
#[derive(Debug, Clone)]
pub struct ThemeVariants {
    pub light: Option<String>,
    pub dark: Option<String>,
}

/// Theme overrides for customization: palette keys and semantic roles,
/// each paired with its new value, applied in order.
#[derive(Debug, Clone)]
pub struct ThemeOverrides {
    pub palette: Vec<(String, String)>,
    pub semantic: Option<Vec<(String, String)>>,
}

/// Complete theme configuration.
#[derive(Debug, Clone)]
pub struct Theme {
    pub system: ThemeSystem,
    pub scheme: String,
    pub palette: ThemePalette,
    pub semantic: SemanticColors,
    pub inherits: Option<String>,
    pub variants: Option<ThemeVariants>,
    pub overrides: Option<ThemeOverrides>,
    pub name: Option<String>,
    pub author: Option<String>,
    pub description: Option<String>,
    pub variant: Option<ThemeVariant>,
}

/// One CSS line for a palette color, or nothing when the color is unset.
pub open spec fn palette_line(prefix: Seq<char>, color: Option<Seq<char>>) -> Seq<char> {
    match color {
        Some(c) => prefix + c + ";\n"@,
        None => Seq::empty(),
    }
}

/// One CSS line binding a variable to a palette color variable.
pub open spec fn var_line(prefix: Seq<char>, target: Seq<char>) -> Seq<char> {
    prefix + target + ");\n"@
}

/// The CSS custom properties generated for a theme.
pub open spec fn css_variables(t: Theme) -> Seq<char> {
    let p = t.palette;
    let s = t.semantic;
    "  /* Base16/Base24 Palette Colors */\n"@
        + palette_line("  --color-base00: "@, opt_chars(p.base00))
        + palette_line("  --color-base01: "@, opt_chars(p.base01))
        + palette_line("  --color-base02: "@, opt_chars(p.base02))
        + palette_line("  --color-base03: "@, opt_chars(p.base03))
        + palette_line("  --color-base04: "@, opt_chars(p.base04))
        + palette_line("  --color-base05: "@, opt_chars(p.base05))
        + palette_line("  --color-base06: "@, opt_chars(p.base06))
        + palette_line("  --color-base07: "@, opt_chars(p.base07))
        + palette_line("  --color-base08: "@, opt_chars(p.base08))
        + palette_line("  --color-base09: "@, opt_chars(p.base09))
        + palette_line("  --color-base0A: "@, opt_chars(p.base0a))
        + palette_line("  --color-base0B: "@, opt_chars(p.base0b))
        + palette_line("  --color-base0C: "@, opt_chars(p.base0c))
        + palette_line("  --color-base0D: "@, opt_chars(p.base0d))
        + palette_line("  --color-base0E: "@, opt_chars(p.base0e))
        + palette_line("  --color-base0F: "@, opt_chars(p.base0f))
        + palette_line("  --color-base10: "@, opt_chars(p.base10))
        + palette_line("  --color-base11: "@, opt_chars(p.base11))
        + palette_line("  --color-base12: "@, opt_chars(p.base12))
        + palette_line("  --color-base13: "@, opt_chars(p.base13))
        + palette_line("  --color-base14: "@, opt_chars(p.base14))
        + palette_line("  --color-base15: "@, opt_chars(p.base15))
        + palette_line("  --color-base16: "@, opt_chars(p.base16))
        + palette_line("  --color-base17: "@, opt_chars(p.base17))
        + "\n  /* Semantic Color Mappings */\n"@
        + var_line("  --color-background: var(--color-"@, s.background@)
        + var_line("  --color-foreground: var(--color-"@, s.foreground@)
        + var_line("  --color-primary: var(--color-"@, s.primary@)
        + var_line("  --color-secondary: var(--color-"@, s.secondary@)
        + var_line("  --color-accent: var(--color-"@, s.accent@)
        + var_line("  --color-muted: var(--color-"@, s.muted@)
        + var_line("  --color-border: var(--color-"@, s.border@)
        + var_line("  --color-success: var(--color-"@, s.success@)
        + var_line("  --color-warning: var(--color-"@, s.warning@)
        + var_line("  --color-error: var(--color-"@, s.error@)
        + var_line("  --color-info: var(--color-"@, s.info@)
        + "\n  /* Legacy Compatibility */\n"@
        + var_line("  --background: var(--color-"@, s.background@)
        + var_line("  --foreground: var(--color-"@, s.foreground@)
        + var_line("  --primary: var(--color-"@, s.primary@)
        + var_line("  --accent: var(--color-"@, s.accent@)
        + var_line("  --muted: var(--color-"@, s.muted@)
        + var_line("  --border: var(--color-"@, s.border@)
        + var_line("  --card: var(--color-"@, s.muted@)
        + var_line("  --card-foreground: var(--color-"@, s.foreground@)
        + var_line("  --popover: var(--color-"@, s.background@)
        + var_line("  --popover-foreground: var(--color-"@, s.foreground@)
        + var_line("  --primary-foreground: var(--color-"@, s.background@)
        + var_line("  --secondary: var(--color-"@, s.secondary@)
        + var_line("  --secondary-foreground: var(--color-"@, s.foreground@)
        + var_line("  --muted-foreground: var(--color-"@, s.muted@)
        + var_line("  --accent-foreground: var(--color-"@, s.background@)
        + var_line("  --destructive: var(--color-"@, s.error@)
        + var_line("  --input: var(--color-"@, s.border@)
        + var_line("  --ring: var(--color-"@, s.primary@)
}

fn push_palette_line(css: &mut String, prefix: &str, color: &Option<String>)
    ensures
        final(css)@ == old(css)@ + palette_line(prefix@, opt_chars(*color)),
{
    match color {
        Some(c) => {
            css.append(prefix);
            css.append(c.as_str());
            css.append(";\n");
        },
        None => {
            assert(old(css)@ + Seq::<char>::empty() =~= old(css)@);
        },
    }
}

fn push_var_line(css: &mut String, prefix: &str, target: &String)
    ensures
        final(css)@ == old(css)@ + var_line(prefix@, target@),
{
    css.append(prefix);
    css.append(target.as_str());
    css.append(");\n");
}

/// A text occurs in a concatenation where it occurs in either part.
proof fn lemma_occurs_in_concat(a: Seq<char>, b: Seq<char>, q: Seq<char>)
    ensures
        occurs_in(a, q) || occurs_in(b, q) ==> occurs_in(a + b, q),
{
    let n = q.len() as int;
    if occurs_in(a, q) {
        let i = choose|i: int| 0 <= i && i + n <= a.len() && #[trigger] a.subrange(i, i + n) == q;
        assert((a + b).subrange(i, i + n) =~= a.subrange(i, i + n));
    } else if occurs_in(b, q) {
        let i = choose|i: int| 0 <= i && i + n <= b.len() && #[trigger] b.subrange(i, i + n) == q;
        assert((a + b).subrange(a.len() + i, a.len() + i + n) =~= b.subrange(i, i + n));
    }
}

/// Every text occurs in itself.
proof fn lemma_occurs_in_itself(q: Seq<char>)
    ensures
        occurs_in(q, q),
{
    assert(q.subrange(0int, 0int + q.len()) =~= q);
}

/// The CSS of a theme holds, for each semantic role, the line that binds
/// `--color-<role>` to the palette color that the role resolves to.
#[verifier::spinoff_prover]
#[verifier::rlimit(100)]
pub proof fn lemma_css_semantic_lines(t: Theme)
    ensures
        semantic_target(t.semantic, "background"@) == Some(t.semantic.background@) && occurs_in(
            css_variables(t),
            "  --color-background: var(--color-"@ + t.semantic.background@ + ");\n"@,
        ),
        semantic_target(t.semantic, "foreground"@) == Some(t.semantic.foreground@) && occurs_in(
            css_variables(t),
            "  --color-foreground: var(--color-"@ + t.semantic.foreground@ + ");\n"@,
        ),
        semantic_target(t.semantic, "primary"@) == Some(t.semantic.primary@) && occurs_in(
            css_variables(t),
            "  --color-primary: var(--color-"@ + t.semantic.primary@ + ");\n"@,
        ),
        semantic_target(t.semantic, "secondary"@) == Some(t.semantic.secondary@) && occurs_in(
            css_variables(t),
            "  --color-secondary: var(--color-"@ + t.semantic.secondary@ + ");\n"@,
        ),
        semantic_target(t.semantic, "accent"@) == Some(t.semantic.accent@) && occurs_in(
            css_variables(t),
            "  --color-accent: var(--color-"@ + t.semantic.accent@ + ");\n"@,
        ),
        semantic_target(t.semantic, "muted"@) == Some(t.semantic.muted@) && occurs_in(
            css_variables(t),
            "  --color-muted: var(--color-"@ + t.semantic.muted@ + ");\n"@,
        ),
        semantic_target(t.semantic, "border"@) == Some(t.semantic.border@) && occurs_in(
            css_variables(t),
            "  --color-border: var(--color-"@ + t.semantic.border@ + ");\n"@,
        ),
        semantic_target(t.semantic, "success"@) == Some(t.semantic.success@) && occurs_in(
            css_variables(t),
            "  --color-success: var(--color-"@ + t.semantic.success@ + ");\n"@,
        ),
        semantic_target(t.semantic, "warning"@) == Some(t.semantic.warning@) && occurs_in(
            css_variables(t),
            "  --color-warning: var(--color-"@ + t.semantic.warning@ + ");\n"@,
        ),
        semantic_target(t.semantic, "error"@) == Some(t.semantic.error@) && occurs_in(
            css_variables(t),
            "  --color-error: var(--color-"@ + t.semantic.error@ + ");\n"@,
        ),
        semantic_target(t.semantic, "info"@) == Some(t.semantic.info@) && occurs_in(
            css_variables(t),
            "  --color-info: var(--color-"@ + t.semantic.info@ + ");\n"@,
        ),
{
    lemma_semantic_roles(t.semantic);
    lemma_occurs_in_itself("  --color-background: var(--color-"@ + t.semantic.background@ + ");\n"@);
    lemma_occurs_in_itself("  --color-foreground: var(--color-"@ + t.semantic.foreground@ + ");\n"@);
    lemma_occurs_in_itself("  --color-primary: var(--color-"@ + t.semantic.primary@ + ");\n"@);
    lemma_occurs_in_itself("  --color-secondary: var(--color-"@ + t.semantic.secondary@ + ");\n"@);
    lemma_occurs_in_itself("  --color-accent: var(--color-"@ + t.semantic.accent@ + ");\n"@);
    lemma_occurs_in_itself("  --color-muted: var(--color-"@ + t.semantic.muted@ + ");\n"@);
    lemma_occurs_in_itself("  --color-border: var(--color-"@ + t.semantic.border@ + ");\n"@);
    lemma_occurs_in_itself("  --color-success: var(--color-"@ + t.semantic.success@ + ");\n"@);
    lemma_occurs_in_itself("  --color-warning: var(--color-"@ + t.semantic.warning@ + ");\n"@);
    lemma_occurs_in_itself("  --color-error: var(--color-"@ + t.semantic.error@ + ");\n"@);
    lemma_occurs_in_itself("  --color-info: var(--color-"@ + t.semantic.info@ + ");\n"@);
    assert forall|a: Seq<char>, b: Seq<char>, q: Seq<char>|
        occurs_in(a, q) || occurs_in(b, q) implies #[trigger] occurs_in(a + b, q) by {
        lemma_occurs_in_concat(a, b, q);
    }
}

/// The CSS of a theme holds, for each of the base16 colors `base00` .. `base07` that is
/// set, the line that defines `--color-<name>` as that color.
#[verifier::spinoff_prover]
#[verifier::rlimit(100)]
pub proof fn lemma_css_palette_lines_low(t: Theme)
    ensures
        t.palette.base00 matches Some(c) ==> occurs_in(css_variables(t), "  --color-base00: "@ + c@ + ";\n"@),
        t.palette.base01 matches Some(c) ==> occurs_in(css_variables(t), "  --color-base01: "@ + c@ + ";\n"@),
        t.palette.base02 matches Some(c) ==> occurs_in(css_variables(t), "  --color-base02: "@ + c@ + ";\n"@),
        t.palette.base03 matches Some(c) ==> occurs_in(css_variables(t), "  --color-base03: "@ + c@ + ";\n"@),
        t.palette.base04 matches Some(c) ==> occurs_in(css_variables(t), "  --color-base04: "@ + c@ + ";\n"@),
        t.palette.base05 matches Some(c) ==> occurs_in(css_variables(t), "  --color-base05: "@ + c@ + ";\n"@),
        t.palette.base06 matches Some(c) ==> occurs_in(css_variables(t), "  --color-base06: "@ + c@ + ";\n"@),
        t.palette.base07 matches Some(c) ==> occurs_in(css_variables(t), "  --color-base07: "@ + c@ + ";\n"@),
{
    if let Some(c) = t.palette.base00 {
        lemma_occurs_in_itself("  --color-base00: "@ + c@ + ";\n"@);
    }
    if let Some(c) = t.palette.base01 {
        lemma_occurs_in_itself("  --color-base01: "@ + c@ + ";\n"@);
    }
    if let Some(c) = t.palette.base02 {
        lemma_occurs_in_itself("  --color-base02: "@ + c@ + ";\n"@);
    }
    if let Some(c) = t.palette.base03 {
        lemma_occurs_in_itself("  --color-base03: "@ + c@ + ";\n"@);
    }
    if let Some(c) = t.palette.base04 {
        lemma_occurs_in_itself("  --color-base04: "@ + c@ + ";\n"@);
    }
    if let Some(c) = t.palette.base05 {
        lemma_occurs_in_itself("  --color-base05: "@ + c@ + ";\n"@);
    }
    if let Some(c) = t.palette.base06 {
        lemma_occurs_in_itself("  --color-base06: "@ + c@ + ";\n"@);
    }
    if let Some(c) = t.palette.base07 {
        lemma_occurs_in_itself("  --color-base07: "@ + c@ + ";\n"@);
    }
    assert forall|a: Seq<char>, b: Seq<char>, q: Seq<char>|
        occurs_in(a, q) || occurs_in(b, q) implies #[trigger] occurs_in(a + b, q) by {
        lemma_occurs_in_concat(a, b, q);
    }
}

/// The CSS of a theme holds, for each of the base16 colors `base08` .. `base0F` that is
/// set, the line that defines `--color-<name>` as that color.
#[verifier::spinoff_prover]
#[verifier::rlimit(100)]
pub proof fn lemma_css_palette_lines_high(t: Theme)
    ensures
        t.palette.base08 matches Some(c) ==> occurs_in(css_variables(t), "  --color-base08: "@ + c@ + ";\n"@),
        t.palette.base09 matches Some(c) ==> occurs_in(css_variables(t), "  --color-base09: "@ + c@ + ";\n"@),
        t.palette.base0a matches Some(c) ==> occurs_in(css_variables(t), "  --color-base0A: "@ + c@ + ";\n"@),
        t.palette.base0b matches Some(c) ==> occurs_in(css_variables(t), "  --color-base0B: "@ + c@ + ";\n"@),
        t.palette.base0c matches Some(c) ==> occurs_in(css_variables(t), "  --color-base0C: "@ + c@ + ";\n"@),
        t.palette.base0d matches Some(c) ==> occurs_in(css_variables(t), "  --color-base0D: "@ + c@ + ";\n"@),
        t.palette.base0e matches Some(c) ==> occurs_in(css_variables(t), "  --color-base0E: "@ + c@ + ";\n"@),
        t.palette.base0f matches Some(c) ==> occurs_in(css_variables(t), "  --color-base0F: "@ + c@ + ";\n"@),
{
    if let Some(c) = t.palette.base08 {
        lemma_occurs_in_itself("  --color-base08: "@ + c@ + ";\n"@);
    }
    if let Some(c) = t.palette.base09 {
        lemma_occurs_in_itself("  --color-base09: "@ + c@ + ";\n"@);
    }
    if let Some(c) = t.palette.base0a {
        lemma_occurs_in_itself("  --color-base0A: "@ + c@ + ";\n"@);
    }
    if let Some(c) = t.palette.base0b {
        lemma_occurs_in_itself("  --color-base0B: "@ + c@ + ";\n"@);
    }
    if let Some(c) = t.palette.base0c {
        lemma_occurs_in_itself("  --color-base0C: "@ + c@ + ";\n"@);
    }
    if let Some(c) = t.palette.base0d {
        lemma_occurs_in_itself("  --color-base0D: "@ + c@ + ";\n"@);
    }
    if let Some(c) = t.palette.base0e {
        lemma_occurs_in_itself("  --color-base0E: "@ + c@ + ";\n"@);
    }
    if let Some(c) = t.palette.base0f {
        lemma_occurs_in_itself("  --color-base0F: "@ + c@ + ";\n"@);
    }
    assert forall|a: Seq<char>, b: Seq<char>, q: Seq<char>|
        occurs_in(a, q) || occurs_in(b, q) implies #[trigger] occurs_in(a + b, q) by {
        lemma_occurs_in_concat(a, b, q);
    }
}

/// The CSS of a theme holds, for each of the base24 colors `base10` .. `base17` that is
/// set, the line that defines `--color-<name>` as that color.
#[verifier::spinoff_prover]
#[verifier::rlimit(100)]
pub proof fn lemma_css_palette_lines_base24(t: Theme)
    ensures
        t.palette.base10 matches Some(c) ==> occurs_in(css_variables(t), "  --color-base10: "@ + c@ + ";\n"@),
        t.palette.base11 matches Some(c) ==> occurs_in(css_variables(t), "  --color-base11: "@ + c@ + ";\n"@),
        t.palette.base12 matches Some(c) ==> occurs_in(css_variables(t), "  --color-base12: "@ + c@ + ";\n"@),
        t.palette.base13 matches Some(c) ==> occurs_in(css_variables(t), "  --color-base13: "@ + c@ + ";\n"@),
        t.palette.base14 matches Some(c) ==> occurs_in(css_variables(t), "  --color-base14: "@ + c@ + ";\n"@),
        t.palette.base15 matches Some(c) ==> occurs_in(css_variables(t), "  --color-base15: "@ + c@ + ";\n"@),
        t.palette.base16 matches Some(c) ==> occurs_in(css_variables(t), "  --color-base16: "@ + c@ + ";\n"@),
        t.palette.base17 matches Some(c) ==> occurs_in(css_variables(t), "  --color-base17: "@ + c@ + ";\n"@),
{
    if let Some(c) = t.palette.base10 {
        lemma_occurs_in_itself("  --color-base10: "@ + c@ + ";\n"@);
    }
    if let Some(c) = t.palette.base11 {
        lemma_occurs_in_itself("  --color-base11: "@ + c@ + ";\n"@);
    }
    if let Some(c) = t.palette.base12 {
        lemma_occurs_in_itself("  --color-base12: "@ + c@ + ";\n"@);
    }
    if let Some(c) = t.palette.base13 {
        lemma_occurs_in_itself("  --color-base13: "@ + c@ + ";\n"@);
    }
    if let Some(c) = t.palette.base14 {
        lemma_occurs_in_itself("  --color-base14: "@ + c@ + ";\n"@);
    }
    if let Some(c) = t.palette.base15 {
        lemma_occurs_in_itself("  --color-base15: "@ + c@ + ";\n"@);
    }
    if let Some(c) = t.palette.base16 {
        lemma_occurs_in_itself("  --color-base16: "@ + c@ + ";\n"@);
    }
    if let Some(c) = t.palette.base17 {
        lemma_occurs_in_itself("  --color-base17: "@ + c@ + ";\n"@);
    }
    assert forall|a: Seq<char>, b: Seq<char>, q: Seq<char>|
        occurs_in(a, q) || occurs_in(b, q) implies #[trigger] occurs_in(a + b, q) by {
        lemma_occurs_in_concat(a, b, q);
    }
}

/// The CSS of a theme binds each legacy variable to the palette color of
/// the role it stands for.
#[verifier::spinoff_prover]
#[verifier::rlimit(100)]
pub proof fn lemma_css_legacy_lines(t: Theme)
    ensures
        occurs_in(css_variables(t), "  --background: var(--color-"@ + t.semantic.background@ + ");\n"@),
        occurs_in(css_variables(t), "  --foreground: var(--color-"@ + t.semantic.foreground@ + ");\n"@),
        occurs_in(css_variables(t), "  --primary: var(--color-"@ + t.semantic.primary@ + ");\n"@),
        occurs_in(css_variables(t), "  --accent: var(--color-"@ + t.semantic.accent@ + ");\n"@),
        occurs_in(css_variables(t), "  --muted: var(--color-"@ + t.semantic.muted@ + ");\n"@),
        occurs_in(css_variables(t), "  --border: var(--color-"@ + t.semantic.border@ + ");\n"@),
        occurs_in(css_variables(t), "  --card: var(--color-"@ + t.semantic.muted@ + ");\n"@),
        occurs_in(css_variables(t), "  --card-foreground: var(--color-"@ + t.semantic.foreground@ + ");\n"@),
        occurs_in(css_variables(t), "  --popover: var(--color-"@ + t.semantic.background@ + ");\n"@),
        occurs_in(css_variables(t), "  --popover-foreground: var(--color-"@ + t.semantic.foreground@ + ");\n"@),
        occurs_in(css_variables(t), "  --primary-foreground: var(--color-"@ + t.semantic.background@ + ");\n"@),
        occurs_in(css_variables(t), "  --secondary: var(--color-"@ + t.semantic.secondary@ + ");\n"@),
        occurs_in(css_variables(t), "  --secondary-foreground: var(--color-"@ + t.semantic.foreground@ + ");\n"@),
        occurs_in(css_variables(t), "  --muted-foreground: var(--color-"@ + t.semantic.muted@ + ");\n"@),
        occurs_in(css_variables(t), "  --accent-foreground: var(--color-"@ + t.semantic.background@ + ");\n"@),
        occurs_in(css_variables(t), "  --destructive: var(--color-"@ + t.semantic.error@ + ");\n"@),
        occurs_in(css_variables(t), "  --input: var(--color-"@ + t.semantic.border@ + ");\n"@),
        occurs_in(css_variables(t), "  --ring: var(--color-"@ + t.semantic.primary@ + ");\n"@),
{
    lemma_occurs_in_itself("  --background: var(--color-"@ + t.semantic.background@ + ");\n"@);
    lemma_occurs_in_itself("  --foreground: var(--color-"@ + t.semantic.foreground@ + ");\n"@);
    lemma_occurs_in_itself("  --primary: var(--color-"@ + t.semantic.primary@ + ");\n"@);
    lemma_occurs_in_itself("  --accent: var(--color-"@ + t.semantic.accent@ + ");\n"@);
    lemma_occurs_in_itself("  --muted: var(--color-"@ + t.semantic.muted@ + ");\n"@);
    lemma_occurs_in_itself("  --border: var(--color-"@ + t.semantic.border@ + ");\n"@);
    lemma_occurs_in_itself("  --card: var(--color-"@ + t.semantic.muted@ + ");\n"@);
    lemma_occurs_in_itself("  --card-foreground: var(--color-"@ + t.semantic.foreground@ + ");\n"@);
    lemma_occurs_in_itself("  --popover: var(--color-"@ + t.semantic.background@ + ");\n"@);
    lemma_occurs_in_itself("  --popover-foreground: var(--color-"@ + t.semantic.foreground@ + ");\n"@);
    lemma_occurs_in_itself("  --primary-foreground: var(--color-"@ + t.semantic.background@ + ");\n"@);
    lemma_occurs_in_itself("  --secondary: var(--color-"@ + t.semantic.secondary@ + ");\n"@);
    lemma_occurs_in_itself("  --secondary-foreground: var(--color-"@ + t.semantic.foreground@ + ");\n"@);
    lemma_occurs_in_itself("  --muted-foreground: var(--color-"@ + t.semantic.muted@ + ");\n"@);
    lemma_occurs_in_itself("  --accent-foreground: var(--color-"@ + t.semantic.background@ + ");\n"@);
    lemma_occurs_in_itself("  --destructive: var(--color-"@ + t.semantic.error@ + ");\n"@);
    lemma_occurs_in_itself("  --input: var(--color-"@ + t.semantic.border@ + ");\n"@);
    lemma_occurs_in_itself("  --ring: var(--color-"@ + t.semantic.primary@ + ");\n"@);
    assert forall|a: Seq<char>, b: Seq<char>, q: Seq<char>|
        occurs_in(a, q) || occurs_in(b, q) implies #[trigger] occurs_in(a + b, q) by {
        lemma_occurs_in_concat(a, b, q);
    }
}

impl Theme {
    /// Generate CSS custom properties from the theme.
    pub fn generate_css_variables(&self) -> (css: String)
        ensures
            css@ == css_variables(*self),
    {
        let p = &self.palette;
        let s = &self.semantic;
        let mut css = String::new();
        css.append("  /* Base16/Base24 Palette Colors */\n");
        push_palette_line(&mut css, "  --color-base00: ", &p.base00);
        push_palette_line(&mut css, "  --color-base01: ", &p.base01);
        push_palette_line(&mut css, "  --color-base02: ", &p.base02);
        push_palette_line(&mut css, "  --color-base03: ", &p.base03);
        push_palette_line(&mut css, "  --color-base04: ", &p.base04);
        push_palette_line(&mut css, "  --color-base05: ", &p.base05);
        push_palette_line(&mut css, "  --color-base06: ", &p.base06);
        push_palette_line(&mut css, "  --color-base07: ", &p.base07);
        push_palette_line(&mut css, "  --color-base08: ", &p.base08);
        push_palette_line(&mut css, "  --color-base09: ", &p.base09);
        push_palette_line(&mut css, "  --color-base0A: ", &p.base0a);
        push_palette_line(&mut css, "  --color-base0B: ", &p.base0b);
        push_palette_line(&mut css, "  --color-base0C: ", &p.base0c);
        push_palette_line(&mut css, "  --color-base0D: ", &p.base0d);
        push_palette_line(&mut css, "  --color-base0E: ", &p.base0e);
        push_palette_line(&mut css, "  --color-base0F: ", &p.base0f);
        push_palette_line(&mut css, "  --color-base10: ", &p.base10);
        push_palette_line(&mut css, "  --color-base11: ", &p.base11);
        push_palette_line(&mut css, "  --color-base12: ", &p.base12);
        push_palette_line(&mut css, "  --color-base13: ", &p.base13);
        push_palette_line(&mut css, "  --color-base14: ", &p.base14);
        push_palette_line(&mut css, "  --color-base15: ", &p.base15);
        push_palette_line(&mut css, "  --color-base16: ", &p.base16);
        push_palette_line(&mut css, "  --color-base17: ", &p.base17);
        css.append("\n  /* Semantic Color Mappings */\n");
        push_var_line(&mut css, "  --color-background: var(--color-", &s.background);
        push_var_line(&mut css, "  --color-foreground: var(--color-", &s.foreground);
        push_var_line(&mut css, "  --color-primary: var(--color-", &s.primary);
        push_var_line(&mut css, "  --color-secondary: var(--color-", &s.secondary);
        push_var_line(&mut css, "  --color-accent: var(--color-", &s.accent);
        push_var_line(&mut css, "  --color-muted: var(--color-", &s.muted);
        push_var_line(&mut css, "  --color-border: var(--color-", &s.border);
        push_var_line(&mut css, "  --color-success: var(--color-", &s.success);
        push_var_line(&mut css, "  --color-warning: var(--color-", &s.warning);
        push_var_line(&mut css, "  --color-error: var(--color-", &s.error);
        push_var_line(&mut css, "  --color-info: var(--color-", &s.info);
        css.append("\n  /* Legacy Compatibility */\n");
        push_var_line(&mut css, "  --background: var(--color-", &s.background);
        push_var_line(&mut css, "  --foreground: var(--color-", &s.foreground);
        push_var_line(&mut css, "  --primary: var(--color-", &s.primary);
        push_var_line(&mut css, "  --accent: var(--color-", &s.accent);
        push_var_line(&mut css, "  --muted: var(--color-", &s.muted);
        push_var_line(&mut css, "  --border: var(--color-", &s.border);
        push_var_line(&mut css, "  --card: var(--color-", &s.muted);
        push_var_line(&mut css, "  --card-foreground: var(--color-", &s.foreground);
        push_var_line(&mut css, "  --popover: var(--color-", &s.background);
        push_var_line(&mut css, "  --popover-foreground: var(--color-", &s.foreground);
        push_var_line(&mut css, "  --primary-foreground: var(--color-", &s.background);
        push_var_line(&mut css, "  --secondary: var(--color-", &s.secondary);
        push_var_line(&mut css, "  --secondary-foreground: var(--color-", &s.foreground);
        push_var_line(&mut css, "  --muted-foreground: var(--color-", &s.muted);
        push_var_line(&mut css, "  --accent-foreground: var(--color-", &s.background);
        push_var_line(&mut css, "  --destructive: var(--color-", &s.error);
        push_var_line(&mut css, "  --input: var(--color-", &s.border);
        push_var_line(&mut css, "  --ring: var(--color-", &s.primary);
        css
    }

    /// Generate a complete CSS theme block.
    pub fn generate_css_theme(&self) -> (css: String)
        ensures
            css@ == ":root {\n"@ + css_variables(*self) + "}\n"@,
    {
        let vars = self.generate_css_variables();
        let mut css = owned(":root {\n");
        css.append(vars.as_str());
        css.append("}\n");
        css
    }

    /// Resolve a base color reference to its actual hex value.
    pub fn resolve_base_color(&self, base_color: &str) -> (r: Option<String>)
        ensures
            opt_chars(r) == palette_color(self.palette, base_color@),
    {
        let p = &self.palette;
        if str_eq(base_color, "base00") {
            p.base00.clone()
        } else if str_eq(base_color, "base01") {
            p.base01.clone()
        } else if str_eq(base_color, "base02") {
            p.base02.clone()
        } else if str_eq(base_color, "base03") {
            p.base03.clone()
        } else if str_eq(base_color, "base04") {
            p.base04.clone()
        } else if str_eq(base_color, "base05") {
            p.base05.clone()
        } else if str_eq(base_color, "base06") {
            p.base06.clone()
        } else if str_eq(base_color, "base07") {
            p.base07.clone()
        } else if str_eq(base_color, "base08") {
            p.base08.clone()
        } else if str_eq(base_color, "base09") {
            p.base09.clone()
        } else if str_eq(base_color, "base0A") {
            p.base0a.clone()
        } else if str_eq(base_color, "base0B") {
            p.base0b.clone()
        } else if str_eq(base_color, "base0C") {
            p.base0c.clone()
        } else if str_eq(base_color, "base0D") {
            p.base0d.clone()
        } else if str_eq(base_color, "base0E") {
            p.base0e.clone()
        } else if str_eq(base_color, "base0F") {
            p.base0f.clone()
        } else if str_eq(base_color, "base10") {
            p.base10.clone()
        } else if str_eq(base_color, "base11") {
            p.base11.clone()
        } else if str_eq(base_color, "base12") {
            p.base12.clone()
        } else if str_eq(base_color, "base13") {
            p.base13.clone()
        } else if str_eq(base_color, "base14") {
            p.base14.clone()
        } else if str_eq(base_color, "base15") {
            p.base15.clone()
        } else if str_eq(base_color, "base16") {
            p.base16.clone()
        } else if str_eq(base_color, "base17") {
            p.base17.clone()
        } else {
            None
        }
    }

    /// Resolve a semantic color to its actual hex value.
    pub fn resolve_semantic_color(&self, semantic_name: &str) -> (r: Option<String>)
        ensures
            opt_chars(r) == match semantic_target(self.semantic, semantic_name@) {
                Some(target) => palette_color(self.palette, target),
                None => None,
            },
    {
        let s = &self.semantic;
        let base_color = if str_eq(semantic_name, "background") {
            &s.background
        } else if str_eq(semantic_name, "foreground") {
            &s.foreground
        } else if str_eq(semantic_name, "primary") {
            &s.primary
        } else if str_eq(semantic_name, "secondary") {
            &s.secondary
        } else if str_eq(semantic_name, "accent") {
            &s.accent
        } else if str_eq(semantic_name, "muted") {
            &s.muted
        } else if str_eq(semantic_name, "border") {
            &s.border
        } else if str_eq(semantic_name, "success") {
            &s.success
        } else if str_eq(semantic_name, "warning") {
            &s.warning
        } else if str_eq(semantic_name, "error") {
            &s.error
        } else if str_eq(semantic_name, "info") {
            &s.info
        } else {
            return None;
        };
        self.resolve_base_color(base_color.as_str())
    }
}

/// Whether `c` is an ASCII hexadecimal digit.
pub open spec fn is_hex_char(c: char) -> bool {
    ('0' <= c && c <= '9') || ('a' <= c && c <= 'f') || ('A' <= c && c <= 'F')
}

/// A hex color: `#` followed by exactly three or six hexadecimal digits.
pub open spec fn valid_color(s: Seq<char>) -> bool {
    &&& s.len() >= 1
    &&& s[0] == '#'
    &&& (s.len() == 7 || s.len() == 4)
    &&& forall|i: int| 1 <= i < s.len() ==> is_hex_char(#[trigger] s[i])
}

/// Validate color format (hex colors).
pub fn is_valid_color(color: &str) -> (r: bool)
    ensures
        r == valid_color(color@),
{
    let cs = chars_of(color);
    if cs.len() == 0 || cs[0] != '#' {
        return false;
    }
    if cs.len() != 7 && cs.len() != 4 {
        return false;
    }
    let mut i: usize = 1;
    while i < cs.len()
        invariant
            1 <= i <= cs.len(),
            cs@ == color@,
            forall|j: int| 1 <= j < i ==> is_hex_char(#[trigger] cs@[j]),
        decreases cs.len() - i,
    {
        let c = cs[i];
        if !(('0' <= c && c <= '9') || ('a' <= c && c <= 'f') || ('A' <= c && c <= 'F')) {
            return false;
        }
        i = i + 1;
    }
    true
}

/// What can go wrong when loading or validating a theme.
#[derive(Debug, Clone)]
pub enum ThemeError {
    /// No theme of that name is known.
    NotFound(String),
    /// A required base16 color (named) is absent.
    MissingColor(String),
    /// A required base16 color (named) has a value (given) that is no hex color.
    InvalidColor(String, String),
    /// The theme file (its path) could not be read or parsed, or was used
    /// already further down the inheritance chain.
    Unreadable(String),
}

/// A palette problem, as plain values.
pub enum ColorProblem {
    Missing(Seq<char>),
    Invalid(Seq<char>, Seq<char>),
}

/// The palette problem that an error reports, if it reports one.
pub open spec fn error_problem(e: ThemeError) -> Option<ColorProblem> {
    match e {
        ThemeError::NotFound(_) => None,
        ThemeError::MissingColor(n) => Some(ColorProblem::Missing(n@)),
        ThemeError::InvalidColor(n, v) => Some(ColorProblem::Invalid(n@, v@)),
        ThemeError::Unreadable(_) => None,
    }
}

/// The problem with one required color, if any.
pub open spec fn required_problem(name: Seq<char>, color: Option<Seq<char>>) -> Option<ColorProblem> {
    match color {
        None => Some(ColorProblem::Missing(name)),
        Some(v) => if valid_color(v) {
            None
        } else {
            Some(ColorProblem::Invalid(name, v))
        },
    }
}

/// The first problem among the sixteen required base16 colors, checked in
/// order `base00` .. `base0F`.
pub open spec fn palette_problem(p: ThemePalette) -> Option<ColorProblem> {
    let q0 = required_problem("base00"@, opt_chars(p.base00));
    let q1 = required_problem("base01"@, opt_chars(p.base01));
    let q2 = required_problem("base02"@, opt_chars(p.base02));
    let q3 = required_problem("base03"@, opt_chars(p.base03));
    let q4 = required_problem("base04"@, opt_chars(p.base04));
    let q5 = required_problem("base05"@, opt_chars(p.base05));
    let q6 = required_problem("base06"@, opt_chars(p.base06));
    let q7 = required_problem("base07"@, opt_chars(p.base07));
    let q8 = required_problem("base08"@, opt_chars(p.base08));
    let q9 = required_problem("base09"@, opt_chars(p.base09));
    let q10 = required_problem("base0A"@, opt_chars(p.base0a));
    let q11 = required_problem("base0B"@, opt_chars(p.base0b));
    let q12 = required_problem("base0C"@, opt_chars(p.base0c));
    let q13 = required_problem("base0D"@, opt_chars(p.base0d));
    let q14 = required_problem("base0E"@, opt_chars(p.base0e));
    let q15 = required_problem("base0F"@, opt_chars(p.base0f));
    if q0 is Some {
        q0
    } else if q1 is Some {
        q1
    } else if q2 is Some {
        q2
    } else if q3 is Some {
        q3
    } else if q4 is Some {
        q4
    } else if q5 is Some {
        q5
    } else if q6 is Some {
        q6
    } else if q7 is Some {
        q7
    } else if q8 is Some {
        q8
    } else if q9 is Some {
        q9
    } else if q10 is Some {
        q10
    } else if q11 is Some {
        q11
    } else if q12 is Some {
        q12
    } else if q13 is Some {
        q13
    } else if q14 is Some {
        q14
    } else {
        q15
    }
}

fn check_required(name: &str, color: &Option<String>) -> (r: Result<(), ThemeError>)
    ensures
        r is Ok <==> required_problem(name@, opt_chars(*color)) is None,
        r matches Err(e) ==> Some(error_problem(e)->0) == required_problem(name@, opt_chars(*color)) && error_problem(e) is Some,
{
    match color {
        None => Err(ThemeError::MissingColor(owned(name))),
        Some(v) => {
            if is_valid_color(v.as_str()) {
                Ok(())
            } else {
                Err(ThemeError::InvalidColor(owned(name), v.clone()))
            }
        },
    }
}

/// A palette color set to `value` under a palette key; keys other than
/// `"base00"` .. `"base0F"` leave the palette unchanged.
pub open spec fn palette_with(p: ThemePalette, key: Seq<char>, value: String) -> ThemePalette {
    if key == "base00"@ {
        ThemePalette { base00: Some(value), ..p }
    } else if key == "base01"@ {
        ThemePalette { base01: Some(value), ..p }
    } else if key == "base02"@ {
        ThemePalette { base02: Some(value), ..p }
    } else if key == "base03"@ {
        ThemePalette { base03: Some(value), ..p }
    } else if key == "base04"@ {
        ThemePalette { base04: Some(value), ..p }
    } else if key == "base05"@ {
        ThemePalette { base05: Some(value), ..p }
    } else if key == "base06"@ {
        ThemePalette { base06: Some(value), ..p }
    } else if key == "base07"@ {
        ThemePalette { base07: Some(value), ..p }
    } else if key == "base08"@ {
        ThemePalette { base08: Some(value), ..p }
    } else if key == "base09"@ {
        ThemePalette { base09: Some(value), ..p }
    } else if key == "base0A"@ {
        ThemePalette { base0a: Some(value), ..p }
    } else if key == "base0B"@ {
        ThemePalette { base0b: Some(value), ..p }
    } else if key == "base0C"@ {
        ThemePalette { base0c: Some(value), ..p }
    } else if key == "base0D"@ {
        ThemePalette { base0d: Some(value), ..p }
    } else if key == "base0E"@ {
        ThemePalette { base0e: Some(value), ..p }
    } else if key == "base0F"@ {
        ThemePalette { base0f: Some(value), ..p }
    } else {
        p
    }
}

/// Overriding one palette key sets exactly that color: for a base16 key
/// (`base00` .. `base0F`), the base color of that name then resolves to the
/// new value, and every other base color name (`base00` .. `base17`)
/// resolves as before; any other key, the base24 names `base10` .. `base17`
/// among them, changes nothing.
pub proof fn lemma_palette_override_sets_one(p: ThemePalette)
    ensures
        forall|key: Seq<char>, value: String|
            #[trigger] palette_color(palette_with(p, key, value), "base00"@) == if key == "base00"@ {
                Some(value@)
            } else {
                palette_color(p, "base00"@)
            },
        forall|key: Seq<char>, value: String|
            #[trigger] palette_color(palette_with(p, key, value), "base01"@) == if key == "base01"@ {
                Some(value@)
            } else {
                palette_color(p, "base01"@)
            },
        forall|key: Seq<char>, value: String|
            #[trigger] palette_color(palette_with(p, key, value), "base02"@) == if key == "base02"@ {
                Some(value@)
            } else {
                palette_color(p, "base02"@)
            },
        forall|key: Seq<char>, value: String|
            #[trigger] palette_color(palette_with(p, key, value), "base03"@) == if key == "base03"@ {
                Some(value@)
            } else {
                palette_color(p, "base03"@)
            },
        forall|key: Seq<char>, value: String|
            #[trigger] palette_color(palette_with(p, key, value), "base04"@) == if key == "base04"@ {
                Some(value@)
            } else {
                palette_color(p, "base04"@)
            },
        forall|key: Seq<char>, value: String|
            #[trigger] palette_color(palette_with(p, key, value), "base05"@) == if key == "base05"@ {
                Some(value@)
            } else {
                palette_color(p, "base05"@)
            },
        forall|key: Seq<char>, value: String|
            #[trigger] palette_color(palette_with(p, key, value), "base06"@) == if key == "base06"@ {
                Some(value@)
            } else {
                palette_color(p, "base06"@)
            },
        forall|key: Seq<char>, value: String|
            #[trigger] palette_color(palette_with(p, key, value), "base07"@) == if key == "base07"@ {
                Some(value@)
            } else {
                palette_color(p, "base07"@)
            },
        forall|key: Seq<char>, value: String|
            #[trigger] palette_color(palette_with(p, key, value), "base08"@) == if key == "base08"@ {
                Some(value@)
            } else {
                palette_color(p, "base08"@)
            },
        forall|key: Seq<char>, value: String|
            #[trigger] palette_color(palette_with(p, key, value), "base09"@) == if key == "base09"@ {
                Some(value@)
            } else {
                palette_color(p, "base09"@)
            },
        forall|key: Seq<char>, value: String|
            #[trigger] palette_color(palette_with(p, key, value), "base0A"@) == if key == "base0A"@ {
                Some(value@)
            } else {
                palette_color(p, "base0A"@)
            },
        forall|key: Seq<char>, value: String|
            #[trigger] palette_color(palette_with(p, key, value), "base0B"@) == if key == "base0B"@ {
                Some(value@)
            } else {
                palette_color(p, "base0B"@)
            },
        forall|key: Seq<char>, value: String|
            #[trigger] palette_color(palette_with(p, key, value), "base0C"@) == if key == "base0C"@ {
                Some(value@)
            } else {
                palette_color(p, "base0C"@)
            },
        forall|key: Seq<char>, value: String|
            #[trigger] palette_color(palette_with(p, key, value), "base0D"@) == if key == "base0D"@ {
                Some(value@)
            } else {
                palette_color(p, "base0D"@)
            },
        forall|key: Seq<char>, value: String|
            #[trigger] palette_color(palette_with(p, key, value), "base0E"@) == if key == "base0E"@ {
                Some(value@)
            } else {
                palette_color(p, "base0E"@)
            },
        forall|key: Seq<char>, value: String|
            #[trigger] palette_color(palette_with(p, key, value), "base0F"@) == if key == "base0F"@ {
                Some(value@)
            } else {
                palette_color(p, "base0F"@)
            },
        forall|key: Seq<char>, value: String|
            #[trigger] palette_color(palette_with(p, key, value), "base10"@) == palette_color(p, "base10"@),
        forall|key: Seq<char>, value: String|
            #[trigger] palette_color(palette_with(p, key, value), "base11"@) == palette_color(p, "base11"@),
        forall|key: Seq<char>, value: String|
            #[trigger] palette_color(palette_with(p, key, value), "base12"@) == palette_color(p, "base12"@),
        forall|key: Seq<char>, value: String|
            #[trigger] palette_color(palette_with(p, key, value), "base13"@) == palette_color(p, "base13"@),
        forall|key: Seq<char>, value: String|
            #[trigger] palette_color(palette_with(p, key, value), "base14"@) == palette_color(p, "base14"@),
        forall|key: Seq<char>, value: String|
            #[trigger] palette_color(palette_with(p, key, value), "base15"@) == palette_color(p, "base15"@),
        forall|key: Seq<char>, value: String|
            #[trigger] palette_color(palette_with(p, key, value), "base16"@) == palette_color(p, "base16"@),
        forall|key: Seq<char>, value: String|
            #[trigger] palette_color(palette_with(p, key, value), "base17"@) == palette_color(p, "base17"@),
{
    reveal_strlit("base00");
    reveal_strlit("base01");
    reveal_strlit("base02");
    reveal_strlit("base03");
    reveal_strlit("base04");
    reveal_strlit("base05");
    reveal_strlit("base06");
    reveal_strlit("base07");
    reveal_strlit("base08");
    reveal_strlit("base09");
    reveal_strlit("base0A");
    reveal_strlit("base0B");
    reveal_strlit("base0C");
    reveal_strlit("base0D");
    reveal_strlit("base0E");
    reveal_strlit("base0F");
    reveal_strlit("base10");
    reveal_strlit("base11");
    reveal_strlit("base12");
    reveal_strlit("base13");
    reveal_strlit("base14");
    reveal_strlit("base15");
    reveal_strlit("base16");
    reveal_strlit("base17");
    assert("base01"@[5] != "base00"@[5]);
    assert("base02"@[5] != "base00"@[5]);
    assert("base02"@[5] != "base01"@[5]);
    assert("base03"@[5] != "base00"@[5]);
    assert("base03"@[5] != "base01"@[5]);
    assert("base03"@[5] != "base02"@[5]);
    assert("base04"@[5] != "base00"@[5]);
    assert("base04"@[5] != "base01"@[5]);
    assert("base04"@[5] != "base02"@[5]);
    assert("base04"@[5] != "base03"@[5]);
    assert("base05"@[5] != "base00"@[5]);
    assert("base05"@[5] != "base01"@[5]);
    assert("base05"@[5] != "base02"@[5]);
    assert("base05"@[5] != "base03"@[5]);
    assert("base05"@[5] != "base04"@[5]);
    assert("base06"@[5] != "base00"@[5]);
    assert("base06"@[5] != "base01"@[5]);
    assert("base06"@[5] != "base02"@[5]);
    assert("base06"@[5] != "base03"@[5]);
    assert("base06"@[5] != "base04"@[5]);
    assert("base06"@[5] != "base05"@[5]);
    assert("base07"@[5] != "base00"@[5]);
    assert("base07"@[5] != "base01"@[5]);
    assert("base07"@[5] != "base02"@[5]);
    assert("base07"@[5] != "base03"@[5]);
    assert("base07"@[5] != "base04"@[5]);
    assert("base07"@[5] != "base05"@[5]);
    assert("base07"@[5] != "base06"@[5]);
    assert("base08"@[5] != "base00"@[5]);
    assert("base08"@[5] != "base01"@[5]);
    assert("base08"@[5] != "base02"@[5]);
    assert("base08"@[5] != "base03"@[5]);
    assert("base08"@[5] != "base04"@[5]);
    assert("base08"@[5] != "base05"@[5]);
    assert("base08"@[5] != "base06"@[5]);
    assert("base08"@[5] != "base07"@[5]);
    assert("base09"@[5] != "base00"@[5]);
    assert("base09"@[5] != "base01"@[5]);
    assert("base09"@[5] != "base02"@[5]);
    assert("base09"@[5] != "base03"@[5]);
    assert("base09"@[5] != "base04"@[5]);
    assert("base09"@[5] != "base05"@[5]);
    assert("base09"@[5] != "base06"@[5]);
    assert("base09"@[5] != "base07"@[5]);
    assert("base09"@[5] != "base08"@[5]);
    assert("base0A"@[5] != "base00"@[5]);
    assert("base0A"@[5] != "base01"@[5]);
    assert("base0A"@[5] != "base02"@[5]);
    assert("base0A"@[5] != "base03"@[5]);
    assert("base0A"@[5] != "base04"@[5]);
    assert("base0A"@[5] != "base05"@[5]);
    assert("base0A"@[5] != "base06"@[5]);
    assert("base0A"@[5] != "base07"@[5]);
    assert("base0A"@[5] != "base08"@[5]);
    assert("base0A"@[5] != "base09"@[5]);
    assert("base0B"@[5] != "base00"@[5]);
    assert("base0B"@[5] != "base01"@[5]);
    assert("base0B"@[5] != "base02"@[5]);
    assert("base0B"@[5] != "base03"@[5]);
    assert("base0B"@[5] != "base04"@[5]);
    assert("base0B"@[5] != "base05"@[5]);
    assert("base0B"@[5] != "base06"@[5]);
    assert("base0B"@[5] != "base07"@[5]);
    assert("base0B"@[5] != "base08"@[5]);
    assert("base0B"@[5] != "base09"@[5]);
    assert("base0B"@[5] != "base0A"@[5]);
    assert("base0C"@[5] != "base00"@[5]);
    assert("base0C"@[5] != "base01"@[5]);
    assert("base0C"@[5] != "base02"@[5]);
    assert("base0C"@[5] != "base03"@[5]);
    assert("base0C"@[5] != "base04"@[5]);
    assert("base0C"@[5] != "base05"@[5]);
    assert("base0C"@[5] != "base06"@[5]);
    assert("base0C"@[5] != "base07"@[5]);
    assert("base0C"@[5] != "base08"@[5]);
    assert("base0C"@[5] != "base09"@[5]);
    assert("base0C"@[5] != "base0A"@[5]);
    assert("base0C"@[5] != "base0B"@[5]);
    assert("base0D"@[5] != "base00"@[5]);
    assert("base0D"@[5] != "base01"@[5]);
    assert("base0D"@[5] != "base02"@[5]);
    assert("base0D"@[5] != "base03"@[5]);
    assert("base0D"@[5] != "base04"@[5]);
    assert("base0D"@[5] != "base05"@[5]);
    assert("base0D"@[5] != "base06"@[5]);
    assert("base0D"@[5] != "base07"@[5]);
    assert("base0D"@[5] != "base08"@[5]);
    assert("base0D"@[5] != "base09"@[5]);
    assert("base0D"@[5] != "base0A"@[5]);
    assert("base0D"@[5] != "base0B"@[5]);
    assert("base0D"@[5] != "base0C"@[5]);
    assert("base0E"@[5] != "base00"@[5]);
    assert("base0E"@[5] != "base01"@[5]);
    assert("base0E"@[5] != "base02"@[5]);
    assert("base0E"@[5] != "base03"@[5]);
    assert("base0E"@[5] != "base04"@[5]);
    assert("base0E"@[5] != "base05"@[5]);
    assert("base0E"@[5] != "base06"@[5]);
    assert("base0E"@[5] != "base07"@[5]);
    assert("base0E"@[5] != "base08"@[5]);
    assert("base0E"@[5] != "base09"@[5]);
    assert("base0E"@[5] != "base0A"@[5]);
    assert("base0E"@[5] != "base0B"@[5]);
    assert("base0E"@[5] != "base0C"@[5]);
    assert("base0E"@[5] != "base0D"@[5]);
    assert("base0F"@[5] != "base00"@[5]);
    assert("base0F"@[5] != "base01"@[5]);
    assert("base0F"@[5] != "base02"@[5]);
    assert("base0F"@[5] != "base03"@[5]);
    assert("base0F"@[5] != "base04"@[5]);
    assert("base0F"@[5] != "base05"@[5]);
    assert("base0F"@[5] != "base06"@[5]);
    assert("base0F"@[5] != "base07"@[5]);
    assert("base0F"@[5] != "base08"@[5]);
    assert("base0F"@[5] != "base09"@[5]);
    assert("base0F"@[5] != "base0A"@[5]);
    assert("base0F"@[5] != "base0B"@[5]);
    assert("base0F"@[5] != "base0C"@[5]);
    assert("base0F"@[5] != "base0D"@[5]);
    assert("base0F"@[5] != "base0E"@[5]);
    assert("base10"@[4] != "base00"@[4]);
    assert("base10"@[4] != "base01"@[4]);
    assert("base10"@[4] != "base02"@[4]);
    assert("base10"@[4] != "base03"@[4]);
    assert("base10"@[4] != "base04"@[4]);
    assert("base10"@[4] != "base05"@[4]);
    assert("base10"@[4] != "base06"@[4]);
    assert("base10"@[4] != "base07"@[4]);
    assert("base10"@[4] != "base08"@[4]);
    assert("base10"@[4] != "base09"@[4]);
    assert("base10"@[4] != "base0A"@[4]);
    assert("base10"@[4] != "base0B"@[4]);
    assert("base10"@[4] != "base0C"@[4]);
    assert("base10"@[4] != "base0D"@[4]);
    assert("base10"@[4] != "base0E"@[4]);
    assert("base10"@[4] != "base0F"@[4]);
    assert("base11"@[4] != "base00"@[4]);
    assert("base11"@[4] != "base01"@[4]);
    assert("base11"@[4] != "base02"@[4]);
    assert("base11"@[4] != "base03"@[4]);
    assert("base11"@[4] != "base04"@[4]);
    assert("base11"@[4] != "base05"@[4]);
    assert("base11"@[4] != "base06"@[4]);
    assert("base11"@[4] != "base07"@[4]);
    assert("base11"@[4] != "base08"@[4]);
    assert("base11"@[4] != "base09"@[4]);
    assert("base11"@[4] != "base0A"@[4]);
    assert("base11"@[4] != "base0B"@[4]);
    assert("base11"@[4] != "base0C"@[4]);
    assert("base11"@[4] != "base0D"@[4]);
    assert("base11"@[4] != "base0E"@[4]);
    assert("base11"@[4] != "base0F"@[4]);
    assert("base11"@[5] != "base10"@[5]);
    assert("base12"@[4] != "base00"@[4]);
    assert("base12"@[4] != "base01"@[4]);
    assert("base12"@[4] != "base02"@[4]);
    assert("base12"@[4] != "base03"@[4]);
    assert("base12"@[4] != "base04"@[4]);
    assert("base12"@[4] != "base05"@[4]);
    assert("base12"@[4] != "base06"@[4]);
    assert("base12"@[4] != "base07"@[4]);
    assert("base12"@[4] != "base08"@[4]);
    assert("base12"@[4] != "base09"@[4]);
    assert("base12"@[4] != "base0A"@[4]);
    assert("base12"@[4] != "base0B"@[4]);
    assert("base12"@[4] != "base0C"@[4]);
    assert("base12"@[4] != "base0D"@[4]);
    assert("base12"@[4] != "base0E"@[4]);
    assert("base12"@[4] != "base0F"@[4]);
    assert("base12"@[5] != "base10"@[5]);
    assert("base12"@[5] != "base11"@[5]);
    assert("base13"@[4] != "base00"@[4]);
    assert("base13"@[4] != "base01"@[4]);
    assert("base13"@[4] != "base02"@[4]);
    assert("base13"@[4] != "base03"@[4]);
    assert("base13"@[4] != "base04"@[4]);
    assert("base13"@[4] != "base05"@[4]);
    assert("base13"@[4] != "base06"@[4]);
    assert("base13"@[4] != "base07"@[4]);
    assert("base13"@[4] != "base08"@[4]);
    assert("base13"@[4] != "base09"@[4]);
    assert("base13"@[4] != "base0A"@[4]);
    assert("base13"@[4] != "base0B"@[4]);
    assert("base13"@[4] != "base0C"@[4]);
    assert("base13"@[4] != "base0D"@[4]);
    assert("base13"@[4] != "base0E"@[4]);
    assert("base13"@[4] != "base0F"@[4]);
    assert("base13"@[5] != "base10"@[5]);
    assert("base13"@[5] != "base11"@[5]);
    assert("base13"@[5] != "base12"@[5]);
    assert("base14"@[4] != "base00"@[4]);
    assert("base14"@[4] != "base01"@[4]);
    assert("base14"@[4] != "base02"@[4]);
    assert("base14"@[4] != "base03"@[4]);
    assert("base14"@[4] != "base04"@[4]);
    assert("base14"@[4] != "base05"@[4]);
    assert("base14"@[4] != "base06"@[4]);
    assert("base14"@[4] != "base07"@[4]);
    assert("base14"@[4] != "base08"@[4]);
    assert("base14"@[4] != "base09"@[4]);
    assert("base14"@[4] != "base0A"@[4]);
    assert("base14"@[4] != "base0B"@[4]);
    assert("base14"@[4] != "base0C"@[4]);
    assert("base14"@[4] != "base0D"@[4]);
    assert("base14"@[4] != "base0E"@[4]);
    assert("base14"@[4] != "base0F"@[4]);
    assert("base14"@[5] != "base10"@[5]);
    assert("base14"@[5] != "base11"@[5]);
    assert("base14"@[5] != "base12"@[5]);
    assert("base14"@[5] != "base13"@[5]);
    assert("base15"@[4] != "base00"@[4]);
    assert("base15"@[4] != "base01"@[4]);
    assert("base15"@[4] != "base02"@[4]);
    assert("base15"@[4] != "base03"@[4]);
    assert("base15"@[4] != "base04"@[4]);
    assert("base15"@[4] != "base05"@[4]);
    assert("base15"@[4] != "base06"@[4]);
    assert("base15"@[4] != "base07"@[4]);
    assert("base15"@[4] != "base08"@[4]);
    assert("base15"@[4] != "base09"@[4]);
    assert("base15"@[4] != "base0A"@[4]);
    assert("base15"@[4] != "base0B"@[4]);
    assert("base15"@[4] != "base0C"@[4]);
    assert("base15"@[4] != "base0D"@[4]);
    assert("base15"@[4] != "base0E"@[4]);
    assert("base15"@[4] != "base0F"@[4]);
    assert("base15"@[5] != "base10"@[5]);
    assert("base15"@[5] != "base11"@[5]);
    assert("base15"@[5] != "base12"@[5]);
    assert("base15"@[5] != "base13"@[5]);
    assert("base15"@[5] != "base14"@[5]);
    assert("base16"@[4] != "base00"@[4]);
    assert("base16"@[4] != "base01"@[4]);
    assert("base16"@[4] != "base02"@[4]);
    assert("base16"@[4] != "base03"@[4]);
    assert("base16"@[4] != "base04"@[4]);
    assert("base16"@[4] != "base05"@[4]);
    assert("base16"@[4] != "base06"@[4]);
    assert("base16"@[4] != "base07"@[4]);
    assert("base16"@[4] != "base08"@[4]);
    assert("base16"@[4] != "base09"@[4]);
    assert("base16"@[4] != "base0A"@[4]);
    assert("base16"@[4] != "base0B"@[4]);
    assert("base16"@[4] != "base0C"@[4]);
    assert("base16"@[4] != "base0D"@[4]);
    assert("base16"@[4] != "base0E"@[4]);
    assert("base16"@[4] != "base0F"@[4]);
    assert("base16"@[5] != "base10"@[5]);
    assert("base16"@[5] != "base11"@[5]);
    assert("base16"@[5] != "base12"@[5]);
    assert("base16"@[5] != "base13"@[5]);
    assert("base16"@[5] != "base14"@[5]);
    assert("base16"@[5] != "base15"@[5]);
    assert("base17"@[4] != "base00"@[4]);
    assert("base17"@[4] != "base01"@[4]);
    assert("base17"@[4] != "base02"@[4]);
    assert("base17"@[4] != "base03"@[4]);
    assert("base17"@[4] != "base04"@[4]);
    assert("base17"@[4] != "base05"@[4]);
    assert("base17"@[4] != "base06"@[4]);
    assert("base17"@[4] != "base07"@[4]);
    assert("base17"@[4] != "base08"@[4]);
    assert("base17"@[4] != "base09"@[4]);
    assert("base17"@[4] != "base0A"@[4]);
    assert("base17"@[4] != "base0B"@[4]);
    assert("base17"@[4] != "base0C"@[4]);
    assert("base17"@[4] != "base0D"@[4]);
    assert("base17"@[4] != "base0E"@[4]);
    assert("base17"@[4] != "base0F"@[4]);
    assert("base17"@[5] != "base10"@[5]);
    assert("base17"@[5] != "base11"@[5]);
    assert("base17"@[5] != "base12"@[5]);
    assert("base17"@[5] != "base13"@[5]);
    assert("base17"@[5] != "base14"@[5]);
    assert("base17"@[5] != "base15"@[5]);
    assert("base17"@[5] != "base16"@[5]);
}

/// The palette after applying palette overrides in order.
pub open spec fn palette_overridden(p: ThemePalette, kvs: Seq<(String, String)>) -> ThemePalette
    decreases kvs.len(),
{
    if kvs.len() == 0 {
        p
    } else {
        palette_with(palette_overridden(p, kvs.drop_last()), kvs.last().0@, kvs.last().1)
    }
}

/// A semantic mapping with one role reassigned; unknown roles leave it unchanged.
pub open spec fn semantic_with(s: SemanticColors, key: Seq<char>, value: String) -> SemanticColors {
    if key == "background"@ {
        SemanticColors { background: value, ..s }
    } else if key == "foreground"@ {
        SemanticColors { foreground: value, ..s }
    } else if key == "primary"@ {
        SemanticColors { primary: value, ..s }
    } else if key == "secondary"@ {
        SemanticColors { secondary: value, ..s }
    } else if key == "accent"@ {
        SemanticColors { accent: value, ..s }
    } else if key == "muted"@ {
        SemanticColors { muted: value, ..s }
    } else if key == "border"@ {
        SemanticColors { border: value, ..s }
    } else if key == "success"@ {
        SemanticColors { success: value, ..s }
    } else if key == "warning"@ {
        SemanticColors { warning: value, ..s }
    } else if key == "error"@ {
        SemanticColors { error: value, ..s }
    } else if key == "info"@ {
        SemanticColors { info: value, ..s }
    } else {
        s
    }
}

/// Overriding one semantic role maps exactly that role: afterwards the
/// role of that name resolves to the new palette color name, and every
/// other role resolves as before; unknown roles change nothing.
pub proof fn lemma_semantic_override_sets_one(s: SemanticColors)
    ensures
        forall|key: Seq<char>, value: String|
            #[trigger] semantic_target(semantic_with(s, key, value), "background"@) == if key == "background"@ {
                Some(value@)
            } else {
                semantic_target(s, "background"@)
            },
        forall|key: Seq<char>, value: String|
            #[trigger] semantic_target(semantic_with(s, key, value), "foreground"@) == if key == "foreground"@ {
                Some(value@)
            } else {
                semantic_target(s, "foreground"@)
            },
        forall|key: Seq<char>, value: String|
            #[trigger] semantic_target(semantic_with(s, key, value), "primary"@) == if key == "primary"@ {
                Some(value@)
            } else {
                semantic_target(s, "primary"@)
            },
        forall|key: Seq<char>, value: String|
            #[trigger] semantic_target(semantic_with(s, key, value), "secondary"@) == if key == "secondary"@ {
                Some(value@)
            } else {
                semantic_target(s, "secondary"@)
            },
        forall|key: Seq<char>, value: String|
            #[trigger] semantic_target(semantic_with(s, key, value), "accent"@) == if key == "accent"@ {
                Some(value@)
            } else {
                semantic_target(s, "accent"@)
            },
        forall|key: Seq<char>, value: String|
            #[trigger] semantic_target(semantic_with(s, key, value), "muted"@) == if key == "muted"@ {
                Some(value@)
            } else {
                semantic_target(s, "muted"@)
            },
        forall|key: Seq<char>, value: String|
            #[trigger] semantic_target(semantic_with(s, key, value), "border"@) == if key == "border"@ {
                Some(value@)
            } else {
                semantic_target(s, "border"@)
            },
        forall|key: Seq<char>, value: String|
            #[trigger] semantic_target(semantic_with(s, key, value), "success"@) == if key == "success"@ {
                Some(value@)
            } else {
                semantic_target(s, "success"@)
            },
        forall|key: Seq<char>, value: String|
            #[trigger] semantic_target(semantic_with(s, key, value), "warning"@) == if key == "warning"@ {
                Some(value@)
            } else {
                semantic_target(s, "warning"@)
            },
        forall|key: Seq<char>, value: String|
            #[trigger] semantic_target(semantic_with(s, key, value), "error"@) == if key == "error"@ {
                Some(value@)
            } else {
                semantic_target(s, "error"@)
            },
        forall|key: Seq<char>, value: String|
            #[trigger] semantic_target(semantic_with(s, key, value), "info"@) == if key == "info"@ {
                Some(value@)
            } else {
                semantic_target(s, "info"@)
            },
{
    reveal_strlit("background");
    reveal_strlit("foreground");
    reveal_strlit("primary");
    reveal_strlit("secondary");
    reveal_strlit("accent");
    reveal_strlit("muted");
    reveal_strlit("border");
    reveal_strlit("success");
    reveal_strlit("warning");
    reveal_strlit("error");
    reveal_strlit("info");
    assert("foreground"@[0] != "background"@[0]);
    assert("primary"@.len() != "background"@.len());
    assert("primary"@.len() != "foreground"@.len());
    assert("secondary"@.len() != "background"@.len());
    assert("secondary"@.len() != "foreground"@.len());
    assert("secondary"@.len() != "primary"@.len());
    assert("accent"@.len() != "background"@.len());
    assert("accent"@.len() != "foreground"@.len());
    assert("accent"@.len() != "primary"@.len());
    assert("accent"@.len() != "secondary"@.len());
    assert("muted"@.len() != "background"@.len());
    assert("muted"@.len() != "foreground"@.len());
    assert("muted"@.len() != "primary"@.len());
    assert("muted"@.len() != "secondary"@.len());
    assert("muted"@.len() != "accent"@.len());
    assert("border"@.len() != "background"@.len());
    assert("border"@.len() != "foreground"@.len());
    assert("border"@.len() != "primary"@.len());
    assert("border"@.len() != "secondary"@.len());
    assert("border"@[0] != "accent"@[0]);
    assert("border"@.len() != "muted"@.len());
    assert("success"@.len() != "background"@.len());
    assert("success"@.len() != "foreground"@.len());
    assert("success"@[0] != "primary"@[0]);
    assert("success"@.len() != "secondary"@.len());
    assert("success"@.len() != "accent"@.len());
    assert("success"@.len() != "muted"@.len());
    assert("success"@.len() != "border"@.len());
    assert("warning"@.len() != "background"@.len());
    assert("warning"@.len() != "foreground"@.len());
    assert("warning"@[0] != "primary"@[0]);
    assert("warning"@.len() != "secondary"@.len());
    assert("warning"@.len() != "accent"@.len());
    assert("warning"@.len() != "muted"@.len());
    assert("warning"@.len() != "border"@.len());
    assert("warning"@[0] != "success"@[0]);
    assert("error"@.len() != "background"@.len());
    assert("error"@.len() != "foreground"@.len());
    assert("error"@.len() != "primary"@.len());
    assert("error"@.len() != "secondary"@.len());
    assert("error"@.len() != "accent"@.len());
    assert("error"@[0] != "muted"@[0]);
    assert("error"@.len() != "border"@.len());
    assert("error"@.len() != "success"@.len());
    assert("error"@.len() != "warning"@.len());
    assert("info"@.len() != "background"@.len());
    assert("info"@.len() != "foreground"@.len());
    assert("info"@.len() != "primary"@.len());
    assert("info"@.len() != "secondary"@.len());
    assert("info"@.len() != "accent"@.len());
    assert("info"@.len() != "muted"@.len());
    assert("info"@.len() != "border"@.len());
    assert("info"@.len() != "success"@.len());
    assert("info"@.len() != "warning"@.len());
    assert("info"@.len() != "error"@.len());
}


/// The semantic mapping after applying semantic overrides in order.
pub open spec fn semantic_overridden(s: SemanticColors, kvs: Seq<(String, String)>) -> SemanticColors
    decreases kvs.len(),
{
    if kvs.len() == 0 {
        s
    } else {
        semantic_with(semantic_overridden(s, kvs.drop_last()), kvs.last().0@, kvs.last().1)
    }
}

/// `c` if it is set, else `p`.
pub open spec fn or_parent<T>(c: Option<T>, p: Option<T>) -> Option<T> {
    if c is Some {
        c
    } else {
        p
    }
}

/// A child theme merged over its parent: every color and metadata field the
/// child sets wins; scheme and system come from the child; the semantic
/// mapping and `inherits` stay the parent's.
pub open spec fn merged_theme(parent: Theme, child: Theme) -> Theme {
    let pp = parent.palette;
    let cp = child.palette;
    Theme {
        system: child.system,
        scheme: child.scheme,
        palette: ThemePalette {
            base00: or_parent(cp.base00, pp.base00),
            base01: or_parent(cp.base01, pp.base01),
            base02: or_parent(cp.base02, pp.base02),
            base03: or_parent(cp.base03, pp.base03),
            base04: or_parent(cp.base04, pp.base04),
            base05: or_parent(cp.base05, pp.base05),
            base06: or_parent(cp.base06, pp.base06),
            base07: or_parent(cp.base07, pp.base07),
            base08: or_parent(cp.base08, pp.base08),
            base09: or_parent(cp.base09, pp.base09),
            base0a: or_parent(cp.base0a, pp.base0a),
            base0b: or_parent(cp.base0b, pp.base0b),
            base0c: or_parent(cp.base0c, pp.base0c),
            base0d: or_parent(cp.base0d, pp.base0d),
            base0e: or_parent(cp.base0e, pp.base0e),
            base0f: or_parent(cp.base0f, pp.base0f),
            base10: or_parent(cp.base10, pp.base10),
            base11: or_parent(cp.base11, pp.base11),
            base12: or_parent(cp.base12, pp.base12),
            base13: or_parent(cp.base13, pp.base13),
            base14: or_parent(cp.base14, pp.base14),
            base15: or_parent(cp.base15, pp.base15),
            base16: or_parent(cp.base16, pp.base16),
            base17: or_parent(cp.base17, pp.base17),
        },
        semantic: parent.semantic,
        inherits: parent.inherits,
        variants: or_parent(child.variants, parent.variants),
        overrides: or_parent(child.overrides, parent.overrides),
        name: or_parent(child.name, parent.name),
        author: or_parent(child.author, parent.author),
        description: or_parent(child.description, parent.description),
        variant: or_parent(child.variant, parent.variant),
    }
}

/// Merging a child theme over its parent: every palette color, and each
/// optional field of metadata, variants and overrides, is the child's
/// wherever the child sets it, and the parent's only where the child leaves
/// it unset; the scheme and system are the child's; the semantic colors and
/// the parent link are the parent's.
pub proof fn lemma_merge_child_wins(parent: Theme, child: Theme)
    ensures
        child.palette.base00 is Some ==> merged_theme(parent, child).palette.base00 == child.palette.base00,
        child.palette.base00 is None ==> merged_theme(parent, child).palette.base00 == parent.palette.base00,
        child.palette.base01 is Some ==> merged_theme(parent, child).palette.base01 == child.palette.base01,
        child.palette.base01 is None ==> merged_theme(parent, child).palette.base01 == parent.palette.base01,
        child.palette.base02 is Some ==> merged_theme(parent, child).palette.base02 == child.palette.base02,
        child.palette.base02 is None ==> merged_theme(parent, child).palette.base02 == parent.palette.base02,
        child.palette.base03 is Some ==> merged_theme(parent, child).palette.base03 == child.palette.base03,
        child.palette.base03 is None ==> merged_theme(parent, child).palette.base03 == parent.palette.base03,
        child.palette.base04 is Some ==> merged_theme(parent, child).palette.base04 == child.palette.base04,
        child.palette.base04 is None ==> merged_theme(parent, child).palette.base04 == parent.palette.base04,
        child.palette.base05 is Some ==> merged_theme(parent, child).palette.base05 == child.palette.base05,
        child.palette.base05 is None ==> merged_theme(parent, child).palette.base05 == parent.palette.base05,
        child.palette.base06 is Some ==> merged_theme(parent, child).palette.base06 == child.palette.base06,
        child.palette.base06 is None ==> merged_theme(parent, child).palette.base06 == parent.palette.base06,
        child.palette.base07 is Some ==> merged_theme(parent, child).palette.base07 == child.palette.base07,
        child.palette.base07 is None ==> merged_theme(parent, child).palette.base07 == parent.palette.base07,
        child.palette.base08 is Some ==> merged_theme(parent, child).palette.base08 == child.palette.base08,
        child.palette.base08 is None ==> merged_theme(parent, child).palette.base08 == parent.palette.base08,
        child.palette.base09 is Some ==> merged_theme(parent, child).palette.base09 == child.palette.base09,
        child.palette.base09 is None ==> merged_theme(parent, child).palette.base09 == parent.palette.base09,
        child.palette.base0a is Some ==> merged_theme(parent, child).palette.base0a == child.palette.base0a,
        child.palette.base0a is None ==> merged_theme(parent, child).palette.base0a == parent.palette.base0a,
        child.palette.base0b is Some ==> merged_theme(parent, child).palette.base0b == child.palette.base0b,
        child.palette.base0b is None ==> merged_theme(parent, child).palette.base0b == parent.palette.base0b,
        child.palette.base0c is Some ==> merged_theme(parent, child).palette.base0c == child.palette.base0c,
        child.palette.base0c is None ==> merged_theme(parent, child).palette.base0c == parent.palette.base0c,
        child.palette.base0d is Some ==> merged_theme(parent, child).palette.base0d == child.palette.base0d,
        child.palette.base0d is None ==> merged_theme(parent, child).palette.base0d == parent.palette.base0d,
        child.palette.base0e is Some ==> merged_theme(parent, child).palette.base0e == child.palette.base0e,
        child.palette.base0e is None ==> merged_theme(parent, child).palette.base0e == parent.palette.base0e,
        child.palette.base0f is Some ==> merged_theme(parent, child).palette.base0f == child.palette.base0f,
        child.palette.base0f is None ==> merged_theme(parent, child).palette.base0f == parent.palette.base0f,
        child.palette.base10 is Some ==> merged_theme(parent, child).palette.base10 == child.palette.base10,
        child.palette.base10 is None ==> merged_theme(parent, child).palette.base10 == parent.palette.base10,
        child.palette.base11 is Some ==> merged_theme(parent, child).palette.base11 == child.palette.base11,
        child.palette.base11 is None ==> merged_theme(parent, child).palette.base11 == parent.palette.base11,
        child.palette.base12 is Some ==> merged_theme(parent, child).palette.base12 == child.palette.base12,
        child.palette.base12 is None ==> merged_theme(parent, child).palette.base12 == parent.palette.base12,
        child.palette.base13 is Some ==> merged_theme(parent, child).palette.base13 == child.palette.base13,
        child.palette.base13 is None ==> merged_theme(parent, child).palette.base13 == parent.palette.base13,
        child.palette.base14 is Some ==> merged_theme(parent, child).palette.base14 == child.palette.base14,
        child.palette.base14 is None ==> merged_theme(parent, child).palette.base14 == parent.palette.base14,
        child.palette.base15 is Some ==> merged_theme(parent, child).palette.base15 == child.palette.base15,
        child.palette.base15 is None ==> merged_theme(parent, child).palette.base15 == parent.palette.base15,
        child.palette.base16 is Some ==> merged_theme(parent, child).palette.base16 == child.palette.base16,
        child.palette.base16 is None ==> merged_theme(parent, child).palette.base16 == parent.palette.base16,
        child.palette.base17 is Some ==> merged_theme(parent, child).palette.base17 == child.palette.base17,
        child.palette.base17 is None ==> merged_theme(parent, child).palette.base17 == parent.palette.base17,
        child.name is Some ==> merged_theme(parent, child).name == child.name,
        child.name is None ==> merged_theme(parent, child).name == parent.name,
        child.author is Some ==> merged_theme(parent, child).author == child.author,
        child.author is None ==> merged_theme(parent, child).author == parent.author,
        child.description is Some ==> merged_theme(parent, child).description == child.description,
        child.description is None ==> merged_theme(parent, child).description == parent.description,
        child.variant is Some ==> merged_theme(parent, child).variant == child.variant,
        child.variant is None ==> merged_theme(parent, child).variant == parent.variant,
        child.variants is Some ==> merged_theme(parent, child).variants == child.variants,
        child.variants is None ==> merged_theme(parent, child).variants == parent.variants,
        child.overrides is Some ==> merged_theme(parent, child).overrides == child.overrides,
        child.overrides is None ==> merged_theme(parent, child).overrides == parent.overrides,
        merged_theme(parent, child).scheme == child.scheme,
        merged_theme(parent, child).system == child.system,
        merged_theme(parent, child).semantic == parent.semantic,
        merged_theme(parent, child).inherits == parent.inherits,
{
}

fn take_or<T>(c: Option<T>, p: Option<T>) -> (r: Option<T>)
    ensures
        r == or_parent(c, p),
{
    match c {
        Some(v) => Some(v),
        None => p,
    }
}

/// A theme with its palette and semantic overrides applied.
pub open spec fn overridden_theme(t: Theme, o: ThemeOverrides) -> Theme {
    Theme {
        palette: palette_overridden(t.palette, o.palette@),
        semantic: match o.semantic {
            Some(kvs) => semantic_overridden(t.semantic, kvs@),
            None => t.semantic,
        },
        ..t
    }
}

/// The value that the last pair with key `key` gives, if any pair has it.
pub open spec fn last_override(kvs: Seq<(String, String)>, key: Seq<char>) -> Option<Seq<char>>
    decreases kvs.len(),
{
    if kvs.len() == 0 {
        None
    } else if kvs.last().0@ == key {
        Some(kvs.last().1@)
    } else {
        last_override(kvs.drop_last(), key)
    }
}

/// After palette overrides, each base16 color (`base00` .. `base0F`)
/// resolves to the value of the last override of its name, and to what it
/// was where none names it; the base24 colors are never overridden.
pub proof fn lemma_palette_overrides_last_wins(p: ThemePalette, kvs: Seq<(String, String)>)
    ensures
        palette_color(palette_overridden(p, kvs), "base00"@) == match last_override(kvs, "base00"@) {
            Some(v) => Some(v),
            None => palette_color(p, "base00"@),
        },
        palette_color(palette_overridden(p, kvs), "base01"@) == match last_override(kvs, "base01"@) {
            Some(v) => Some(v),
            None => palette_color(p, "base01"@),
        },
        palette_color(palette_overridden(p, kvs), "base02"@) == match last_override(kvs, "base02"@) {
            Some(v) => Some(v),
            None => palette_color(p, "base02"@),
        },
        palette_color(palette_overridden(p, kvs), "base03"@) == match last_override(kvs, "base03"@) {
            Some(v) => Some(v),
            None => palette_color(p, "base03"@),
        },
        palette_color(palette_overridden(p, kvs), "base04"@) == match last_override(kvs, "base04"@) {
            Some(v) => Some(v),
            None => palette_color(p, "base04"@),
        },
        palette_color(palette_overridden(p, kvs), "base05"@) == match last_override(kvs, "base05"@) {
            Some(v) => Some(v),
            None => palette_color(p, "base05"@),
        },
        palette_color(palette_overridden(p, kvs), "base06"@) == match last_override(kvs, "base06"@) {
            Some(v) => Some(v),
            None => palette_color(p, "base06"@),
        },
        palette_color(palette_overridden(p, kvs), "base07"@) == match last_override(kvs, "base07"@) {
            Some(v) => Some(v),
            None => palette_color(p, "base07"@),
        },
        palette_color(palette_overridden(p, kvs), "base08"@) == match last_override(kvs, "base08"@) {
            Some(v) => Some(v),
            None => palette_color(p, "base08"@),
        },
        palette_color(palette_overridden(p, kvs), "base09"@) == match last_override(kvs, "base09"@) {
            Some(v) => Some(v),
            None => palette_color(p, "base09"@),
        },
        palette_color(palette_overridden(p, kvs), "base0A"@) == match last_override(kvs, "base0A"@) {
            Some(v) => Some(v),
            None => palette_color(p, "base0A"@),
        },
        palette_color(palette_overridden(p, kvs), "base0B"@) == match last_override(kvs, "base0B"@) {
            Some(v) => Some(v),
            None => palette_color(p, "base0B"@),
        },
        palette_color(palette_overridden(p, kvs), "base0C"@) == match last_override(kvs, "base0C"@) {
            Some(v) => Some(v),
            None => palette_color(p, "base0C"@),
        },
        palette_color(palette_overridden(p, kvs), "base0D"@) == match last_override(kvs, "base0D"@) {
            Some(v) => Some(v),
            None => palette_color(p, "base0D"@),
        },
        palette_color(palette_overridden(p, kvs), "base0E"@) == match last_override(kvs, "base0E"@) {
            Some(v) => Some(v),
            None => palette_color(p, "base0E"@),
        },
        palette_color(palette_overridden(p, kvs), "base0F"@) == match last_override(kvs, "base0F"@) {
            Some(v) => Some(v),
            None => palette_color(p, "base0F"@),
        },
        palette_color(palette_overridden(p, kvs), "base10"@) == palette_color(p, "base10"@),
        palette_color(palette_overridden(p, kvs), "base11"@) == palette_color(p, "base11"@),
        palette_color(palette_overridden(p, kvs), "base12"@) == palette_color(p, "base12"@),
        palette_color(palette_overridden(p, kvs), "base13"@) == palette_color(p, "base13"@),
        palette_color(palette_overridden(p, kvs), "base14"@) == palette_color(p, "base14"@),
        palette_color(palette_overridden(p, kvs), "base15"@) == palette_color(p, "base15"@),
        palette_color(palette_overridden(p, kvs), "base16"@) == palette_color(p, "base16"@),
        palette_color(palette_overridden(p, kvs), "base17"@) == palette_color(p, "base17"@),
    decreases kvs.len(),
{
    if kvs.len() > 0 {
        lemma_palette_overrides_last_wins(p, kvs.drop_last());
        lemma_palette_override_sets_one(palette_overridden(p, kvs.drop_last()));
    }
}

/// After semantic overrides, each role resolves to the value of the last
/// override of its name, and as before where none names it.
pub proof fn lemma_semantic_overrides_last_wins(s: SemanticColors, kvs: Seq<(String, String)>)
    ensures
        semantic_target(semantic_overridden(s, kvs), "background"@) == match last_override(kvs, "background"@) {
            Some(v) => Some(v),
            None => semantic_target(s, "background"@),
        },
        semantic_target(semantic_overridden(s, kvs), "foreground"@) == match last_override(kvs, "foreground"@) {
            Some(v) => Some(v),
            None => semantic_target(s, "foreground"@),
        },
        semantic_target(semantic_overridden(s, kvs), "primary"@) == match last_override(kvs, "primary"@) {
            Some(v) => Some(v),
            None => semantic_target(s, "primary"@),
        },
        semantic_target(semantic_overridden(s, kvs), "secondary"@) == match last_override(kvs, "secondary"@) {
            Some(v) => Some(v),
            None => semantic_target(s, "secondary"@),
        },
        semantic_target(semantic_overridden(s, kvs), "accent"@) == match last_override(kvs, "accent"@) {
            Some(v) => Some(v),
            None => semantic_target(s, "accent"@),
        },
        semantic_target(semantic_overridden(s, kvs), "muted"@) == match last_override(kvs, "muted"@) {
            Some(v) => Some(v),
            None => semantic_target(s, "muted"@),
        },
        semantic_target(semantic_overridden(s, kvs), "border"@) == match last_override(kvs, "border"@) {
            Some(v) => Some(v),
            None => semantic_target(s, "border"@),
        },
        semantic_target(semantic_overridden(s, kvs), "success"@) == match last_override(kvs, "success"@) {
            Some(v) => Some(v),
            None => semantic_target(s, "success"@),
        },
        semantic_target(semantic_overridden(s, kvs), "warning"@) == match last_override(kvs, "warning"@) {
            Some(v) => Some(v),
            None => semantic_target(s, "warning"@),
        },
        semantic_target(semantic_overridden(s, kvs), "error"@) == match last_override(kvs, "error"@) {
            Some(v) => Some(v),
            None => semantic_target(s, "error"@),
        },
        semantic_target(semantic_overridden(s, kvs), "info"@) == match last_override(kvs, "info"@) {
            Some(v) => Some(v),
            None => semantic_target(s, "info"@),
        },
    decreases kvs.len(),
{
    if kvs.len() > 0 {
        lemma_semantic_overrides_last_wins(s, kvs.drop_last());
        lemma_semantic_override_sets_one(semantic_overridden(s, kvs.drop_last()));
    }
}

fn set_palette_key(p: &mut ThemePalette, key: &str, value: String)
    ensures
        *final(p) == palette_with(*old(p), key@, value),
{
    if str_eq(key, "base00") {
        p.base00 = Some(value);
    } else if str_eq(key, "base01") {
        p.base01 = Some(value);
    } else if str_eq(key, "base02") {
        p.base02 = Some(value);
    } else if str_eq(key, "base03") {
        p.base03 = Some(value);
    } else if str_eq(key, "base04") {
        p.base04 = Some(value);
    } else if str_eq(key, "base05") {
        p.base05 = Some(value);
    } else if str_eq(key, "base06") {
        p.base06 = Some(value);
    } else if str_eq(key, "base07") {
        p.base07 = Some(value);
    } else if str_eq(key, "base08") {
        p.base08 = Some(value);
    } else if str_eq(key, "base09") {
        p.base09 = Some(value);
    } else if str_eq(key, "base0A") {
        p.base0a = Some(value);
    } else if str_eq(key, "base0B") {
        p.base0b = Some(value);
    } else if str_eq(key, "base0C") {
        p.base0c = Some(value);
    } else if str_eq(key, "base0D") {
        p.base0d = Some(value);
    } else if str_eq(key, "base0E") {
        p.base0e = Some(value);
    } else if str_eq(key, "base0F") {
        p.base0f = Some(value);
    }
}

fn set_semantic_key(s: &mut SemanticColors, key: &str, value: String)
    ensures
        *final(s) == semantic_with(*old(s), key@, value),
{
    if str_eq(key, "background") {
        s.background = value;
    } else if str_eq(key, "foreground") {
        s.foreground = value;
    } else if str_eq(key, "primary") {
        s.primary = value;
    } else if str_eq(key, "secondary") {
        s.secondary = value;
    } else if str_eq(key, "accent") {
        s.accent = value;
    } else if str_eq(key, "muted") {
        s.muted = value;
    } else if str_eq(key, "border") {
        s.border = value;
    } else if str_eq(key, "success") {
        s.success = value;
    } else if str_eq(key, "warning") {
        s.warning = value;
    } else if str_eq(key, "error") {
        s.error = value;
    } else if str_eq(key, "info") {
        s.info = value;
    }
}

/// Whether an optional color is set to a hex color.
pub open spec fn hex_set(c: Option<String>) -> bool {
    c matches Some(v) && valid_color(v@)
}

/// Validation passes exactly when each of the sixteen base16 colors
/// `base00` .. `base0F` is set to a hex color; otherwise it reports the
/// first of them, in that order, that is unset (missing, by its name) or
/// set to something else (invalid, by its name and value).
pub proof fn lemma_palette_validation(p: ThemePalette)
    ensures
        palette_problem(p) is None <==> (hex_set(p.base00) && hex_set(p.base01) && hex_set(p.base02) && hex_set(p.base03) && hex_set(p.base04) && hex_set(p.base05) && hex_set(p.base06) && hex_set(p.base07) && hex_set(p.base08) && hex_set(p.base09) && hex_set(p.base0a) && hex_set(p.base0b) && hex_set(p.base0c) && hex_set(p.base0d) && hex_set(p.base0e) && hex_set(p.base0f)),
        p.base00 is None ==> palette_problem(p) == Some(ColorProblem::Missing("base00"@)),
        (p.base00 matches Some(c) && !valid_color(c@)) ==> palette_problem(p) == Some(
            ColorProblem::Invalid("base00"@, p.base00->0@),
        ),
        hex_set(p.base00) && p.base01 is None ==> palette_problem(p) == Some(ColorProblem::Missing("base01"@)),
        hex_set(p.base00) && (p.base01 matches Some(c) && !valid_color(c@)) ==> palette_problem(p) == Some(
            ColorProblem::Invalid("base01"@, p.base01->0@),
        ),
        hex_set(p.base00) && hex_set(p.base01) && p.base02 is None ==> palette_problem(p) == Some(ColorProblem::Missing("base02"@)),
        hex_set(p.base00) && hex_set(p.base01) && (p.base02 matches Some(c) && !valid_color(c@)) ==> palette_problem(p) == Some(
            ColorProblem::Invalid("base02"@, p.base02->0@),
        ),
        hex_set(p.base00) && hex_set(p.base01) && hex_set(p.base02) && p.base03 is None ==> palette_problem(p) == Some(ColorProblem::Missing("base03"@)),
        hex_set(p.base00) && hex_set(p.base01) && hex_set(p.base02) && (p.base03 matches Some(c) && !valid_color(c@)) ==> palette_problem(p) == Some(
            ColorProblem::Invalid("base03"@, p.base03->0@),
        ),
        hex_set(p.base00) && hex_set(p.base01) && hex_set(p.base02) && hex_set(p.base03) && p.base04 is None ==> palette_problem(p) == Some(ColorProblem::Missing("base04"@)),
        hex_set(p.base00) && hex_set(p.base01) && hex_set(p.base02) && hex_set(p.base03) && (p.base04 matches Some(c) && !valid_color(c@)) ==> palette_problem(p) == Some(
            ColorProblem::Invalid("base04"@, p.base04->0@),
        ),
        hex_set(p.base00) && hex_set(p.base01) && hex_set(p.base02) && hex_set(p.base03) && hex_set(p.base04) && p.base05 is None ==> palette_problem(p) == Some(ColorProblem::Missing("base05"@)),
        hex_set(p.base00) && hex_set(p.base01) && hex_set(p.base02) && hex_set(p.base03) && hex_set(p.base04) && (p.base05 matches Some(c) && !valid_color(c@)) ==> palette_problem(p) == Some(
            ColorProblem::Invalid("base05"@, p.base05->0@),
        ),
        hex_set(p.base00) && hex_set(p.base01) && hex_set(p.base02) && hex_set(p.base03) && hex_set(p.base04) && hex_set(p.base05) && p.base06 is None ==> palette_problem(p) == Some(ColorProblem::Missing("base06"@)),
        hex_set(p.base00) && hex_set(p.base01) && hex_set(p.base02) && hex_set(p.base03) && hex_set(p.base04) && hex_set(p.base05) && (p.base06 matches Some(c) && !valid_color(c@)) ==> palette_problem(p) == Some(
            ColorProblem::Invalid("base06"@, p.base06->0@),
        ),
        hex_set(p.base00) && hex_set(p.base01) && hex_set(p.base02) && hex_set(p.base03) && hex_set(p.base04) && hex_set(p.base05) && hex_set(p.base06) && p.base07 is None ==> palette_problem(p) == Some(ColorProblem::Missing("base07"@)),
        hex_set(p.base00) && hex_set(p.base01) && hex_set(p.base02) && hex_set(p.base03) && hex_set(p.base04) && hex_set(p.base05) && hex_set(p.base06) && (p.base07 matches Some(c) && !valid_color(c@)) ==> palette_problem(p) == Some(
            ColorProblem::Invalid("base07"@, p.base07->0@),
        ),
        hex_set(p.base00) && hex_set(p.base01) && hex_set(p.base02) && hex_set(p.base03) && hex_set(p.base04) && hex_set(p.base05) && hex_set(p.base06) && hex_set(p.base07) && p.base08 is None ==> palette_problem(p) == Some(ColorProblem::Missing("base08"@)),
        hex_set(p.base00) && hex_set(p.base01) && hex_set(p.base02) && hex_set(p.base03) && hex_set(p.base04) && hex_set(p.base05) && hex_set(p.base06) && hex_set(p.base07) && (p.base08 matches Some(c) && !valid_color(c@)) ==> palette_problem(p) == Some(
            ColorProblem::Invalid("base08"@, p.base08->0@),
        ),
        hex_set(p.base00) && hex_set(p.base01) && hex_set(p.base02) && hex_set(p.base03) && hex_set(p.base04) && hex_set(p.base05) && hex_set(p.base06) && hex_set(p.base07) && hex_set(p.base08) && p.base09 is None ==> palette_problem(p) == Some(ColorProblem::Missing("base09"@)),
        hex_set(p.base00) && hex_set(p.base01) && hex_set(p.base02) && hex_set(p.base03) && hex_set(p.base04) && hex_set(p.base05) && hex_set(p.base06) && hex_set(p.base07) && hex_set(p.base08) && (p.base09 matches Some(c) && !valid_color(c@)) ==> palette_problem(p) == Some(
            ColorProblem::Invalid("base09"@, p.base09->0@),
        ),
        hex_set(p.base00) && hex_set(p.base01) && hex_set(p.base02) && hex_set(p.base03) && hex_set(p.base04) && hex_set(p.base05) && hex_set(p.base06) && hex_set(p.base07) && hex_set(p.base08) && hex_set(p.base09) && p.base0a is None ==> palette_problem(p) == Some(ColorProblem::Missing("base0A"@)),
        hex_set(p.base00) && hex_set(p.base01) && hex_set(p.base02) && hex_set(p.base03) && hex_set(p.base04) && hex_set(p.base05) && hex_set(p.base06) && hex_set(p.base07) && hex_set(p.base08) && hex_set(p.base09) && (p.base0a matches Some(c) && !valid_color(c@)) ==> palette_problem(p) == Some(
            ColorProblem::Invalid("base0A"@, p.base0a->0@),
        ),
        hex_set(p.base00) && hex_set(p.base01) && hex_set(p.base02) && hex_set(p.base03) && hex_set(p.base04) && hex_set(p.base05) && hex_set(p.base06) && hex_set(p.base07) && hex_set(p.base08) && hex_set(p.base09) && hex_set(p.base0a) && p.base0b is None ==> palette_problem(p) == Some(ColorProblem::Missing("base0B"@)),
        hex_set(p.base00) && hex_set(p.base01) && hex_set(p.base02) && hex_set(p.base03) && hex_set(p.base04) && hex_set(p.base05) && hex_set(p.base06) && hex_set(p.base07) && hex_set(p.base08) && hex_set(p.base09) && hex_set(p.base0a) && (p.base0b matches Some(c) && !valid_color(c@)) ==> palette_problem(p) == Some(
            ColorProblem::Invalid("base0B"@, p.base0b->0@),
        ),
        hex_set(p.base00) && hex_set(p.base01) && hex_set(p.base02) && hex_set(p.base03) && hex_set(p.base04) && hex_set(p.base05) && hex_set(p.base06) && hex_set(p.base07) && hex_set(p.base08) && hex_set(p.base09) && hex_set(p.base0a) && hex_set(p.base0b) && p.base0c is None ==> palette_problem(p) == Some(ColorProblem::Missing("base0C"@)),
        hex_set(p.base00) && hex_set(p.base01) && hex_set(p.base02) && hex_set(p.base03) && hex_set(p.base04) && hex_set(p.base05) && hex_set(p.base06) && hex_set(p.base07) && hex_set(p.base08) && hex_set(p.base09) && hex_set(p.base0a) && hex_set(p.base0b) && (p.base0c matches Some(c) && !valid_color(c@)) ==> palette_problem(p) == Some(
            ColorProblem::Invalid("base0C"@, p.base0c->0@),
        ),
        hex_set(p.base00) && hex_set(p.base01) && hex_set(p.base02) && hex_set(p.base03) && hex_set(p.base04) && hex_set(p.base05) && hex_set(p.base06) && hex_set(p.base07) && hex_set(p.base08) && hex_set(p.base09) && hex_set(p.base0a) && hex_set(p.base0b) && hex_set(p.base0c) && p.base0d is None ==> palette_problem(p) == Some(ColorProblem::Missing("base0D"@)),
        hex_set(p.base00) && hex_set(p.base01) && hex_set(p.base02) && hex_set(p.base03) && hex_set(p.base04) && hex_set(p.base05) && hex_set(p.base06) && hex_set(p.base07) && hex_set(p.base08) && hex_set(p.base09) && hex_set(p.base0a) && hex_set(p.base0b) && hex_set(p.base0c) && (p.base0d matches Some(c) && !valid_color(c@)) ==> palette_problem(p) == Some(
            ColorProblem::Invalid("base0D"@, p.base0d->0@),
        ),
        hex_set(p.base00) && hex_set(p.base01) && hex_set(p.base02) && hex_set(p.base03) && hex_set(p.base04) && hex_set(p.base05) && hex_set(p.base06) && hex_set(p.base07) && hex_set(p.base08) && hex_set(p.base09) && hex_set(p.base0a) && hex_set(p.base0b) && hex_set(p.base0c) && hex_set(p.base0d) && p.base0e is None ==> palette_problem(p) == Some(ColorProblem::Missing("base0E"@)),
        hex_set(p.base00) && hex_set(p.base01) && hex_set(p.base02) && hex_set(p.base03) && hex_set(p.base04) && hex_set(p.base05) && hex_set(p.base06) && hex_set(p.base07) && hex_set(p.base08) && hex_set(p.base09) && hex_set(p.base0a) && hex_set(p.base0b) && hex_set(p.base0c) && hex_set(p.base0d) && (p.base0e matches Some(c) && !valid_color(c@)) ==> palette_problem(p) == Some(
            ColorProblem::Invalid("base0E"@, p.base0e->0@),
        ),
        hex_set(p.base00) && hex_set(p.base01) && hex_set(p.base02) && hex_set(p.base03) && hex_set(p.base04) && hex_set(p.base05) && hex_set(p.base06) && hex_set(p.base07) && hex_set(p.base08) && hex_set(p.base09) && hex_set(p.base0a) && hex_set(p.base0b) && hex_set(p.base0c) && hex_set(p.base0d) && hex_set(p.base0e) && p.base0f is None ==> palette_problem(p) == Some(ColorProblem::Missing("base0F"@)),
        hex_set(p.base00) && hex_set(p.base01) && hex_set(p.base02) && hex_set(p.base03) && hex_set(p.base04) && hex_set(p.base05) && hex_set(p.base06) && hex_set(p.base07) && hex_set(p.base08) && hex_set(p.base09) && hex_set(p.base0a) && hex_set(p.base0b) && hex_set(p.base0c) && hex_set(p.base0d) && hex_set(p.base0e) && (p.base0f matches Some(c) && !valid_color(c@)) ==> palette_problem(p) == Some(
            ColorProblem::Invalid("base0F"@, p.base0f->0@),
        ),
{
}

/// Validate a theme's palette: the sixteen base16 colors must be present and
/// be hex colors.
pub fn validate_palette(p: &ThemePalette) -> (r: Result<(), ThemeError>)
    ensures
        r is Ok <==> palette_problem(*p) is None,
        r matches Err(e) ==> error_problem(e) == palette_problem(*p),
{
    check_required("base00", &p.base00)?;
    check_required("base01", &p.base01)?;
    check_required("base02", &p.base02)?;
    check_required("base03", &p.base03)?;
    check_required("base04", &p.base04)?;
    check_required("base05", &p.base05)?;
    check_required("base06", &p.base06)?;
    check_required("base07", &p.base07)?;
    check_required("base08", &p.base08)?;
    check_required("base09", &p.base09)?;
    check_required("base0A", &p.base0a)?;
    check_required("base0B", &p.base0b)?;
    check_required("base0C", &p.base0c)?;
    check_required("base0D", &p.base0d)?;
    check_required("base0E", &p.base0e)?;
    check_required("base0F", &p.base0f)?;
    Ok(())
}

/// Whether `t` is the default theme.
pub open spec fn is_default_theme(t: Theme) -> bool {
    &&& t.system == ThemeSystem::Base16
    &&& t.scheme@ == "base16-default-dark"@
    &&& t.palette == empty_palette()
    &&& is_default_semantic(t.semantic)
    &&& t.inherits is None
    &&& t.variants is None
    &&& t.overrides is None
    &&& opt_chars(t.name) == Some("Default Dark"@)
    &&& t.author is None
    &&& opt_chars(t.description) == Some("Default dark theme"@)
    &&& t.variant == Some(ThemeVariant::Dark)
}

impl Default for Theme {
    fn default() -> (r: Self)
        ensures
            is_default_theme(r),
    {
        Theme {
            system: ThemeSystem::Base16,
            scheme: owned("base16-default-dark"),
            palette: ThemePalette::default(),
            semantic: SemanticColors::default(),
            inherits: None,
            variants: None,
            overrides: None,
            name: Some(owned("Default Dark")),
            author: None,
            description: Some(owned("Default dark theme")),
            variant: Some(ThemeVariant::Dark),
        }
    }
}

/// Theme information for listing.
#[derive(Debug, Clone)]
pub struct ThemeInfo {
    pub name: String,
    pub scheme: String,
    pub author: Option<String>,
    pub description: Option<String>,
    pub system: ThemeSystem,
    pub variant: Option<ThemeVariant>,
}

/// The listing information of a theme loaded under `name`.
pub open spec fn info_of(t: Theme, name: Seq<char>, info: ThemeInfo) -> bool {
    &&& info.name@ == (match t.name {
        Some(n) => n@,
        None => name,
    })
    &&& info.scheme == t.scheme
    &&& info.author == t.author
    &&& info.description == t.description
    &&& info.system == t.system
    &&& info.variant == t.variant
}

/// Listing information for a theme loaded under `name`; the theme's own name
/// when it has one, else `name`.
pub fn theme_info(theme: Theme, name: &str) -> (info: ThemeInfo)
    ensures
        info_of(theme, name@, info),
{
    let n = match theme.name {
        Some(n) => n,
        None => owned(name),
    };
    ThemeInfo {
        name: n,
        scheme: theme.scheme,
        author: theme.author,
        description: theme.description,
        system: theme.system,
        variant: theme.variant,
    }
}

fn copy_opt(o: &Option<String>) -> (r: Option<String>)
    ensures
        r == *o,
{
    match o {
        Some(s) => Some(s.clone()),
        None => None,
    }
}

fn copy_palette(p: &ThemePalette) -> (r: ThemePalette)
    ensures
        r == *p,
{
    ThemePalette {
        base00: copy_opt(&p.base00),
        base01: copy_opt(&p.base01),
        base02: copy_opt(&p.base02),
        base03: copy_opt(&p.base03),
        base04: copy_opt(&p.base04),
        base05: copy_opt(&p.base05),
        base06: copy_opt(&p.base06),
        base07: copy_opt(&p.base07),
        base08: copy_opt(&p.base08),
        base09: copy_opt(&p.base09),
        base0a: copy_opt(&p.base0a),
        base0b: copy_opt(&p.base0b),
        base0c: copy_opt(&p.base0c),
        base0d: copy_opt(&p.base0d),
        base0e: copy_opt(&p.base0e),
        base0f: copy_opt(&p.base0f),
        base10: copy_opt(&p.base10),
        base11: copy_opt(&p.base11),
        base12: copy_opt(&p.base12),
        base13: copy_opt(&p.base13),
        base14: copy_opt(&p.base14),
        base15: copy_opt(&p.base15),
        base16: copy_opt(&p.base16),
        base17: copy_opt(&p.base17),
    }
}

fn copy_semantic(s: &SemanticColors) -> (r: SemanticColors)
    ensures
        r == *s,
{
    SemanticColors {
        background: s.background.clone(),
        foreground: s.foreground.clone(),
        primary: s.primary.clone(),
        secondary: s.secondary.clone(),
        accent: s.accent.clone(),
        muted: s.muted.clone(),
        border: s.border.clone(),
        success: s.success.clone(),
        warning: s.warning.clone(),
        error: s.error.clone(),
        info: s.info.clone(),
    }
}

/// A copy of a theme that carries no overrides.
fn copy_plain_theme(t: &Theme) -> (r: Theme)
    requires
        t.overrides is None,
    ensures
        r == *t,
{
    let variants = match &t.variants {
        Some(v) => Some(ThemeVariants { light: copy_opt(&v.light), dark: copy_opt(&v.dark) }),
        None => None,
    };
    Theme {
        system: t.system,
        scheme: t.scheme.clone(),
        palette: copy_palette(&t.palette),
        semantic: copy_semantic(&t.semantic),
        inherits: copy_opt(&t.inherits),
        variants,
        overrides: None,
        name: copy_opt(&t.name),
        author: copy_opt(&t.author),
        description: copy_opt(&t.description),
        variant: t.variant,
    }
}

/// The theme stored under `name` in a table of named themes (first match).
pub open spec fn lookup_theme(entries: Seq<(String, Theme)>, name: Seq<char>) -> Option<Theme>
    decreases entries.len(),
{
    if entries.len() == 0 {
        None
    } else if entries[0].0@ == name {
        Some(entries[0].1)
    } else {
        lookup_theme(entries.drop_first(), name)
    }
}

/// The names in a table of named themes, in table order.
pub open spec fn entry_names(entries: Seq<(String, Theme)>) -> Seq<Seq<char>> {
    Seq::new(entries.len(), |i: int| entries[i].0@)
}

/// Split a tinty-style theme name into its system and theme name.
pub open spec fn split_theme_name(name: Seq<char>) -> Option<(Seq<char>, Seq<char>)> {
    if has_prefix(name, "base16-"@) {
        Some(("base16"@, name.subrange(7, name.len() as int)))
    } else if has_prefix(name, "base24-"@) {
        Some(("base24"@, name.subrange(7, name.len() as int)))
    } else {
        None
    }
}

/// The directories a loader searches when none is configured: the tinty
/// directory under the home directory, then the legacy one under the
/// configuration directory, each where that directory is known.
pub open spec fn default_dirs(home: Option<Seq<char>>, config: Option<Seq<char>>) -> Seq<Seq<char>> {
    let a = match home {
        Some(h) => seq![crate::paths::join_spec(crate::paths::join_spec(h, ".config"@), "themes"@)],
        None => Seq::empty(),
    };
    let b = match config {
        Some(c) => seq![crate::paths::join_spec(crate::paths::join_spec(c, "lst"@), "themes"@)],
        None => Seq::empty(),
    };
    a + b
}

/// The theme directories to search when none is configured, given the home
/// and configuration directories.
pub fn default_theme_dirs(home: Option<String>, config: Option<String>) -> (r: Vec<String>)
    ensures
        r@.map_values(|s: String| s@) == default_dirs(opt_chars(home), opt_chars(config)),
{
    let mut r: Vec<String> = Vec::new();
    match home {
        Some(h) => {
            let a = crate::paths::join(h.as_str(), ".config");
            r.push(crate::paths::join(a.as_str(), "themes"));
        },
        None => {},
    }
    match config {
        Some(c) => {
            let a = crate::paths::join(c.as_str(), "lst");
            r.push(crate::paths::join(a.as_str(), "themes"));
        },
        None => {},
    }
    assert(r@.map_values(|s: String| s@) =~= default_dirs(opt_chars(home), opt_chars(config)));
    r
}

/// A theme file as the caller read it from a theme directory: its path,
/// and the theme it holds, or `None` when it could not be read or parsed.
#[derive(Debug, Clone)]
pub struct ThemeFile {
    pub path: String,
    pub theme: Option<Theme>,
}

/// The file of the theme `name` in the directories `dirs`, whose listings
/// are `ls`, searched in order: `<dir>/<name>.toml`, else, for a name
/// `base16-<rest>` or `base24-<rest>`, `<dir>/<system>/<rest>.yaml`, then
/// `.yml`. With the path comes whether it is such a YAML file.
pub open spec fn theme_file_in(
    dirs: Seq<Seq<char>>,
    ls: Seq<(Seq<Seq<char>>, Seq<Seq<char>>, Seq<Seq<char>>)>,
    name: Seq<char>,
) -> Option<(Seq<char>, bool)>
    decreases dirs.len(),
{
    if dirs.len() == 0 || ls.len() == 0 {
        None
    } else if ls[0].0.contains(name + ".toml"@) {
        Some((join_spec(dirs[0], name + ".toml"@), false))
    } else {
        match split_theme_name(name) {
            Some((sys, rest)) => {
                let sl = if sys == "base16"@ {
                    ls[0].1
                } else {
                    ls[0].2
                };
                if sl.contains(rest + ".yaml"@) {
                    Some((join_spec(join_spec(dirs[0], sys), rest + ".yaml"@), true))
                } else if sl.contains(rest + ".yml"@) {
                    Some((join_spec(join_spec(dirs[0], sys), rest + ".yml"@), true))
                } else {
                    theme_file_in(dirs.drop_first(), ls.drop_first(), name)
                }
            },
            None => theme_file_in(dirs.drop_first(), ls.drop_first(), name),
        }
    }
}

/// The position of the first file with that path, if any.
pub open spec fn file_position(files: Seq<ThemeFile>, path: Seq<char>) -> Option<int>
    decreases files.len(),
{
    if files.len() == 0 {
        None
    } else if files[0].path@ == path {
        Some(0)
    } else {
        match file_position(files.drop_first(), path) {
            Some(k) => Some(k + 1),
            None => None,
        }
    }
}

/// `file_position` is the first position with that path.
pub proof fn lemma_file_position(files: Seq<ThemeFile>, path: Seq<char>)
    ensures
        file_position(files, path) matches Some(k) ==> 0 <= k < files.len() && files[k].path@ == path
            && forall|j: int| 0 <= j < k ==> files[j].path@ != path,
        file_position(files, path) is None ==> forall|j: int| 0 <= j < files.len() ==> files[j].path@ != path,
    decreases files.len(),
{
    if files.len() > 0 && files[0].path@ != path {
        lemma_file_position(files.drop_first(), path);
        assert forall|j: int| 0 < j < files.len() implies files[j] == files.drop_first()[j - 1] by {}
    }
}

/// The theme read from a file: as it is, or, from a YAML file, with the
/// name it was loaded by as its scheme.
pub open spec fn named_as(t0: Theme, yaml: bool, name: Seq<char>, t: Theme) -> bool {
    if yaml {
        t == (Theme { scheme: t.scheme, ..t0 }) && t.scheme@ == name
    } else {
        t == t0
    }
}

/// Whether `r` is what finishing `t` over `parent` gives: the merged theme
/// with its overrides applied when it validates, else the first problem.
pub open spec fn finishes(t: Theme, parent: Option<Theme>, r: Result<Theme, ThemeError>) -> bool {
    let f = finished_theme(t, parent);
    match palette_problem(f.palette) {
        None => r == Ok::<Theme, ThemeError>(f),
        Some(p) => r matches Err(e) && error_problem(e) == Some(p),
    }
}

/// Whether `r` is what loading the theme `name` gives, with these built-in
/// themes, directories, directory listings and files read from them: a
/// built-in theme as it is; no file: not found; a file not read: unreadable;
/// else what the file gives.
pub open spec fn loads_as(
    b: Seq<(String, Theme)>,
    dirs: Seq<Seq<char>>,
    ls: Seq<(Seq<Seq<char>>, Seq<Seq<char>>, Seq<Seq<char>>)>,
    files: Seq<ThemeFile>,
    name: Seq<char>,
    r: Result<Theme, ThemeError>,
) -> bool
    decreases files.len(), 1int,
{
    match lookup_theme(b, name) {
        Some(t) => r == Ok::<Theme, ThemeError>(t),
        None => match theme_file_in(dirs, ls, name) {
            None => r matches Err(ThemeError::NotFound(n)) && n@ == name,
            Some((path, yaml)) => match file_position(files, path) {
                None => r matches Err(ThemeError::Unreadable(p)) && p@ == path,
                Some(k) => loads_from_file(b, dirs, ls, files, k, path, yaml, name, r),
            },
        },
    }
}

/// Whether `r` is what the file at position `k` gives for the theme `name`:
/// unreadable when it holds no theme; else its theme, named, finished over
/// its parent (loaded the same way, with this file used up), or the parent's
/// error.
pub open spec fn loads_from_file(
    b: Seq<(String, Theme)>,
    dirs: Seq<Seq<char>>,
    ls: Seq<(Seq<Seq<char>>, Seq<Seq<char>>, Seq<Seq<char>>)>,
    files: Seq<ThemeFile>,
    k: int,
    path: Seq<char>,
    yaml: bool,
    name: Seq<char>,
    r: Result<Theme, ThemeError>,
) -> bool
    decreases files.len(), 0int,
{
    &&& 0 <= k < files.len()
    &&& match files[k].theme {
        None => r matches Err(ThemeError::Unreadable(p)) && p@ == path,
        Some(t0) => exists|t: Theme|
            #[trigger] named_as(t0, yaml, name, t) && match t.inherits {
                None => finishes(t, None, r),
                Some(pn) => exists|pr: Result<Theme, ThemeError>|
                    #[trigger] over_parent(t, pr, r) && loads_as(b, dirs, ls, files.remove(k), pn@, pr),
            },
    }
}

/// Whether `r` is what a theme `t` gives over the result `pr` of loading its
/// parent: `t` finished over the parent, or the parent's error.
pub open spec fn over_parent(t: Theme, pr: Result<Theme, ThemeError>, r: Result<Theme, ThemeError>) -> bool {
    match pr {
        Ok(parent) => finishes(t, Some(parent), r),
        Err(e) => r == Err::<Theme, ThemeError>(e),
    }
}

/// A file theme that inherits loads as its parent's load makes it.
proof fn lemma_loads_from_file_inheriting(
    b: Seq<(String, Theme)>,
    dirs: Seq<Seq<char>>,
    ls: Seq<(Seq<Seq<char>>, Seq<Seq<char>>, Seq<Seq<char>>)>,
    files: Seq<ThemeFile>,
    k: int,
    path: Seq<char>,
    yaml: bool,
    name: Seq<char>,
    r: Result<Theme, ThemeError>,
    t: Theme,
    pr: Result<Theme, ThemeError>,
)
    requires
        0 <= k < files.len(),
        files[k].theme matches Some(t0) && named_as(t0, yaml, name, t),
        t.inherits is Some,
        loads_as(b, dirs, ls, files.remove(k), t.inherits->0@, pr),
        over_parent(t, pr, r),
    ensures
        loads_from_file(b, dirs, ls, files, k, path, yaml, name, r),
{
}

/// Two themes that are the same but for which string holds the scheme's
/// text.
pub open spec fn same_theme(a: Theme, b: Theme) -> bool {
    a == (Theme { scheme: a.scheme, ..b }) && a.scheme@ == b.scheme@
}

/// Two theme errors of the same kind with the same texts.
pub open spec fn same_theme_error(a: ThemeError, b: ThemeError) -> bool {
    match (a, b) {
        (ThemeError::NotFound(x), ThemeError::NotFound(y)) => x@ == y@,
        (ThemeError::MissingColor(x), ThemeError::MissingColor(y)) => x@ == y@,
        (ThemeError::InvalidColor(x, v), ThemeError::InvalidColor(y, w)) => x@ == y@ && v@ == w@,
        (ThemeError::Unreadable(x), ThemeError::Unreadable(y)) => x@ == y@,
        _ => false,
    }
}

/// Two outcomes of loading a theme that agree: the same theme, or the same
/// error.
pub open spec fn same_load(a: Result<Theme, ThemeError>, b: Result<Theme, ThemeError>) -> bool {
    match (a, b) {
        (Ok(x), Ok(y)) => same_theme(x, y),
        (Err(x), Err(y)) => same_theme_error(x, y),
        _ => false,
    }
}

/// Finishing agreeing themes over agreeing parents gives agreeing outcomes.
proof fn lemma_finishes_same(
    t1: Theme,
    t2: Theme,
    p1: Option<Theme>,
    p2: Option<Theme>,
    r1: Result<Theme, ThemeError>,
    r2: Result<Theme, ThemeError>,
)
    requires
        same_theme(t1, t2),
        match (p1, p2) {
            (None, None) => true,
            (Some(x), Some(y)) => same_theme(x, y),
            _ => false,
        },
        finishes(t1, p1, r1),
        finishes(t2, p2, r2),
    ensures
        same_load(r1, r2),
{
    let m1 = match p1 {
        Some(p) => merged_theme(p, t1),
        None => t1,
    };
    let m2 = match p2 {
        Some(p) => merged_theme(p, t2),
        None => t2,
    };
    assert(same_theme(m1, m2));
    let f1 = finished_theme(t1, p1);
    let f2 = finished_theme(t2, p2);
    assert(same_theme(f1, f2));
    assert(f1.palette == f2.palette);
    if let Some(p) = palette_problem(f1.palette) {
        if let Err(e1) = r1 {
            if let Err(e2) = r2 {
                assert(error_problem(e1) == error_problem(e2));
                match e1 {
                    ThemeError::MissingColor(x) => {
                        if let ThemeError::MissingColor(y) = e2 {
                            assert(x@ == y@);
                        }
                    },
                    ThemeError::InvalidColor(x, v) => {
                        if let ThemeError::InvalidColor(y, w) = e2 {
                            assert(x@ == y@ && v@ == w@);
                        }
                    },
                    _ => {},
                }
            }
        }
    }
}

/// Loading a theme has one outcome: any two results that loading the
/// theme `name` can give, with the same built-in themes, directories,
/// listings and files, agree: the same theme (up to which string holds its
/// scheme's text), or the same error.
pub proof fn lemma_loads_as_one_outcome(
    b: Seq<(String, Theme)>,
    dirs: Seq<Seq<char>>,
    ls: Seq<(Seq<Seq<char>>, Seq<Seq<char>>, Seq<Seq<char>>)>,
    files: Seq<ThemeFile>,
    name: Seq<char>,
    r1: Result<Theme, ThemeError>,
    r2: Result<Theme, ThemeError>,
)
    requires
        loads_as(b, dirs, ls, files, name, r1),
        loads_as(b, dirs, ls, files, name, r2),
    ensures
        same_load(r1, r2),
    decreases files.len(),
{
    match lookup_theme(b, name) {
        Some(t) => {
            assert(same_theme(t, t));
        },
        None => match theme_file_in(dirs, ls, name) {
            None => {},
            Some((path, yaml)) => match file_position(files, path) {
                None => {},
                Some(k) => {
                    assert(loads_from_file(b, dirs, ls, files, k, path, yaml, name, r1));
                    assert(loads_from_file(b, dirs, ls, files, k, path, yaml, name, r2));
                    if let Some(t0) = files[k].theme {
                        let t1 = choose|t: Theme|
                            #[trigger] named_as(t0, yaml, name, t) && match t.inherits {
                                None => finishes(t, None, r1),
                                Some(pn) => exists|pr: Result<Theme, ThemeError>|
                                    #[trigger] over_parent(t, pr, r1) && loads_as(b, dirs, ls, files.remove(k), pn@, pr),
                            };
                        let t2 = choose|t: Theme|
                            #[trigger] named_as(t0, yaml, name, t) && match t.inherits {
                                None => finishes(t, None, r2),
                                Some(pn) => exists|pr: Result<Theme, ThemeError>|
                                    #[trigger] over_parent(t, pr, r2) && loads_as(b, dirs, ls, files.remove(k), pn@, pr),
                            };
                        assert(same_theme(t1, t2));
                        assert(t1.inherits == t2.inherits);
                        match t1.inherits {
                            None => {
                                lemma_finishes_same(t1, t2, None, None, r1, r2);
                            },
                            Some(pn) => {
                                let rest = files.remove(k);
                                let pr1 = choose|pr: Result<Theme, ThemeError>|
                                    #[trigger] over_parent(t1, pr, r1) && loads_as(b, dirs, ls, rest, pn@, pr);
                                let pr2 = choose|pr: Result<Theme, ThemeError>|
                                    #[trigger] over_parent(t2, pr, r2) && loads_as(b, dirs, ls, rest, pn@, pr);
                                lemma_loads_as_one_outcome(b, dirs, ls, rest, pn@, pr1, pr2);
                                match (pr1, pr2) {
                                    (Ok(x), Ok(y)) => {
                                        lemma_finishes_same(t1, t2, Some(x), Some(y), r1, r2);
                                    },
                                    _ => {},
                                }
                            },
                        }
                    }
                },
            },
        },
    }
}

/// Whether `r` is the listing information of the theme `name` as loading
/// it gives it, or the error that loading gives.
pub open spec fn info_loads_as(
    b: Seq<(String, Theme)>,
    dirs: Seq<Seq<char>>,
    ls: Seq<(Seq<Seq<char>>, Seq<Seq<char>>, Seq<Seq<char>>)>,
    files: Seq<ThemeFile>,
    name: Seq<char>,
    r: Result<ThemeInfo, ThemeError>,
) -> bool {
    exists|lr: Result<Theme, ThemeError>|
        #[trigger] loads_as(b, dirs, ls, files, name, lr) && match lr {
            Ok(t) => r matches Ok(info) && info_of(t, name, info),
            Err(e) => r == Err::<ThemeInfo, ThemeError>(e),
        }
}

/// The information about a theme agrees with loading it: it is an error
/// exactly when loading fails, the same error; else it is the loaded
/// theme's: its own name or else the name it was loaded by, its scheme,
/// author, description, system and variant.
pub proof fn lemma_theme_info_agrees(
    b: Seq<(String, Theme)>,
    dirs: Seq<Seq<char>>,
    ls: Seq<(Seq<Seq<char>>, Seq<Seq<char>>, Seq<Seq<char>>)>,
    files: Seq<ThemeFile>,
    name: Seq<char>,
    r: Result<Theme, ThemeError>,
    ri: Result<ThemeInfo, ThemeError>,
)
    requires
        loads_as(b, dirs, ls, files, name, r),
        info_loads_as(b, dirs, ls, files, name, ri),
    ensures
        r is Ok <==> ri is Ok,
        r matches Err(e) ==> ri matches Err(e2) && same_theme_error(e, e2),
        r matches Ok(t) ==> ri matches Ok(info) && info.name@ == (match t.name {
            Some(n) => n@,
            None => name,
        }) && info.scheme@ == t.scheme@ && info.author == t.author && info.description == t.description
            && info.system == t.system && info.variant == t.variant,
{
    let lr = choose|lr: Result<Theme, ThemeError>|
        #[trigger] loads_as(b, dirs, ls, files, name, lr) && match lr {
            Ok(t) => ri matches Ok(info) && info_of(t, name, info),
            Err(e) => ri == Err::<ThemeInfo, ThemeError>(e),
        };
    lemma_loads_as_one_outcome(b, dirs, ls, files, name, r, lr);
}

/// Whether `s` is among the strings of `v`.
fn listed(v: &Vec<String>, s: &str) -> (r: bool)
    ensures
        r == string_views(v@).contains(s@),
{
    let mut i: usize = 0;
    while i < v.len()
        invariant
            i <= v@.len(),
            forall|j: int| 0 <= j < i ==> v@[j]@ != s@,
        decreases v@.len() - i,
    {
        if str_eq(v[i].as_str(), s) {
            assert(string_views(v@)[i as int] == s@);
            return true;
        }
        i = i + 1;
    }
    assert forall|j: int| 0 <= j < string_views(v@).len() implies string_views(v@)[j] != s@ by {
        assert(string_views(v@)[j] == v@[j]@);
    }
    false
}

/// The position of the first file with that path.
fn file_index(files: &Vec<ThemeFile>, path: &str) -> (r: Option<usize>)
    ensures
        match file_position(files@, path@) {
            Some(k) => r matches Some(i) && i as int == k,
            None => r is None,
        },
{
    proof {
        lemma_file_position(files@, path@);
    }
    let mut i: usize = 0;
    while i < files.len()
        invariant
            i <= files@.len(),
            forall|j: int| 0 <= j < i ==> files@[j].path@ != path@,
            file_position(files@, path@) matches Some(k) ==> 0 <= k < files@.len() && files@[k].path@ == path@
                && forall|j: int| 0 <= j < k ==> files@[j].path@ != path@,
            file_position(files@, path@) is None ==> forall|j: int| 0 <= j < files@.len() ==> files@[j].path@ != path@,
        decreases files@.len() - i,
    {
        if str_eq(files[i].path.as_str(), path) {
            return Some(i);
        }
        i = i + 1;
    }
    None
}

/// Theme loader for managing theme files and inheritance.
#[derive(Debug)]
pub struct ThemeLoader {
    theme_dirs: Vec<String>,
    built_in_themes: Vec<(String, Theme)>,
}

impl ThemeLoader {
    /// The built-in themes keep no overrides.
    #[verifier::type_invariant]
    spec fn builtins_plain(self) -> bool {
        forall|i: int| 0 <= i < self.built_in_themes@.len() ==> (#[trigger] self.built_in_themes@[i]).1.overrides is None
    }

    /// The directories searched for theme files, in order.
    pub closed spec fn dirs(self) -> Seq<Seq<char>> {
        self.theme_dirs@.map_values(|s: String| s@)
    }

    /// The built-in themes with their names, in insertion order.
    pub closed spec fn builtins(self) -> Seq<(String, Theme)> {
        self.built_in_themes@
    }

    /// The directories searched for theme files.
    pub fn theme_dirs(&self) -> (r: &Vec<String>)
        ensures
            r@.map_values(|s: String| s@) == self.dirs(),
    {
        &self.theme_dirs
    }

    /// Add a theme directory to the search path.
    pub fn add_theme_dir(&mut self, path: &str)
        ensures
            final(self).dirs() == old(self).dirs().push(path@),
            final(self).builtins() == old(self).builtins(),
    {
        proof {
            use_type_invariant(&*self);
        }
        let ghost before = self.theme_dirs@;
        let mut dirs: Vec<String> = Vec::new();
        let mut i: usize = 0;
        while i < self.theme_dirs.len()
            invariant
                i <= before.len(),
                before == self.theme_dirs@,
                dirs@ == before.take(i as int),
            decreases before.len() - i,
        {
            dirs.push(self.theme_dirs[i].clone());
            assert(dirs@ =~= before.take(i + 1));
            i = i + 1;
        }
        dirs.push(owned(path));
        self.theme_dirs = dirs;
        assert(self.theme_dirs@.map_values(|s: String| s@) =~= before.map_values(|s: String| s@).push(path@));
    }

    /// The built-in theme of that name, if there is one.
    fn builtin_theme(&self, name: &str) -> (r: Option<Theme>)
        ensures
            r == lookup_theme(self.builtins(), name@),
    {
        proof {
            use_type_invariant(self);
            assert(self.built_in_themes@.skip(0) =~= self.built_in_themes@);
        }
        let mut i: usize = 0;
        while i < self.built_in_themes.len()
            invariant
                i <= self.built_in_themes@.len(),
                forall|k: int| 0 <= k < self.built_in_themes@.len() ==> (#[trigger] self.built_in_themes@[k]).1.overrides is None,
                lookup_theme(self.built_in_themes@, name@) == lookup_theme(self.built_in_themes@.skip(i as int), name@),
            decreases self.built_in_themes@.len() - i,
        {
            let entry = &self.built_in_themes[i];
            assert(self.built_in_themes@.skip(i as int)[0] == self.built_in_themes@[i as int]);
            if str_eq(entry.0.as_str(), name) {
                return Some(copy_plain_theme(&entry.1));
            }
            assert(self.built_in_themes@.skip(i as int).drop_first() =~= self.built_in_themes@.skip(i + 1));
            i = i + 1;
        }
        None
    }

    /// The file of the theme `name` in the theme directories, whose listings
    /// (one per directory, in order) are given: the path and whether it is
    /// a base16/base24 YAML file.
    pub fn theme_file_for(&self, name: &str, listings: &Vec<ThemeDirListing>) -> (r: Option<(String, bool)>)
        ensures
            match theme_file_in(self.dirs(), listing_views(listings@), name@) {
                Some((p, y)) => r matches Some((rp, ry)) && rp@ == p && ry == y,
                None => r is None,
            },
    {
        let ghost ds = self.dirs();
        let ghost ls = listing_views(listings@);
        let mut toml = owned(name);
        toml.append(".toml");
        let split = self.parse_theme_name(name);
        let mut i: usize = 0;
        assert(ds.skip(0) =~= ds);
        assert(ls.skip(0) =~= ls);
        while i < self.theme_dirs.len() && i < listings.len()
            invariant
                i <= self.theme_dirs@.len(),
                i <= listings@.len(),
                ds == self.dirs(),
                ls == listing_views(listings@),
                ds.len() == self.theme_dirs@.len(),
                ls.len() == listings@.len(),
                toml@ == name@ + ".toml"@,
                match split_theme_name(name@) {
                    Some((sy, n)) => split matches Some((rs, rn)) && rs@ == sy && rn@ == n,
                    None => split is None,
                },
                theme_file_in(ds, ls, name@) == theme_file_in(ds.skip(i as int), ls.skip(i as int), name@),
            decreases self.theme_dirs@.len() - i,
        {
            let dir = &self.theme_dirs[i];
            let l = &listings[i];
            assert(ds.skip(i as int)[0] == dir@);
            assert(ls.skip(i as int)[0] == listing_view(*l));
            assert(ds.skip(i as int).drop_first() =~= ds.skip(i + 1));
            assert(ls.skip(i as int).drop_first() =~= ls.skip(i + 1));
            if listed(&l.entries, toml.as_str()) {
                return Some((crate::paths::join(dir.as_str(), toml.as_str()), false));
            }
            match &split {
                Some((system, rest)) => {
                    let sl = if str_eq(system.as_str(), "base16") {
                        &l.base16
                    } else {
                        &l.base24
                    };
                    let mut yaml = rest.clone();
                    yaml.append(".yaml");
                    let mut yml = rest.clone();
                    yml.append(".yml");
                    let sub = crate::paths::join(dir.as_str(), system.as_str());
                    if listed(sl, yaml.as_str()) {
                        return Some((crate::paths::join(sub.as_str(), yaml.as_str()), true));
                    }
                    if listed(sl, yml.as_str()) {
                        return Some((crate::paths::join(sub.as_str(), yml.as_str()), true));
                    }
                },
                None => {},
            }
            i = i + 1;
        }
        None
    }

    /// Load a theme by name: a built-in theme as it is; else the theme file
    /// that the directories' listings show, taken from `files` (the files
    /// read by the caller, each used once), with the name as its scheme for
    /// a YAML file, merged over its parent when it inherits one (loaded the
    /// same way), with its overrides applied, and validated.
    pub fn load_theme(&self, name: &str, listings: &Vec<ThemeDirListing>, files: Vec<ThemeFile>) -> (r: Result<Theme, ThemeError>)
        ensures
            loads_as(self.builtins(), self.dirs(), listing_views(listings@), files@, name@, r),
        decreases files@.len(),
    {
        if let Some(t) = self.builtin_theme(name) {
            return Ok(t);
        }
        let found = self.theme_file_for(name, listings);
        match found {
            None => Err(ThemeError::NotFound(owned(name))),
            Some((path, yaml)) => {
                let mut files = files;
                let ghost fs = files@;
                match file_index(&files, path.as_str()) {
                    None => Err(ThemeError::Unreadable(path)),
                    Some(k) => {
                        proof {
                            lemma_file_position(fs, path@);
                        }
                        let file = files.remove(k);
                        assert(files@ == fs.remove(k as int));
                        match file.theme {
                            None => Err(ThemeError::Unreadable(path)),
                            Some(t0) => {
                                let ghost g0 = t0;
                                let mut t = t0;
                                if yaml {
                                    t.scheme = owned(name);
                                }
                                assert(named_as(g0, yaml, name@, t));
                                let parent_name = match &t.inherits {
                                    Some(p) => Some(p.clone()),
                                    None => None,
                                };
                                match parent_name {
                                    None => {
                                        let r = self.resolve_loaded_theme(t, None);
                                        assert(finishes(t, None, r));
                                        r
                                    },
                                    Some(p) => {
                                        let pr = self.load_theme(p.as_str(), listings, files);
                                        let ghost gp = pr;
                                        let r = match pr {
                                            Ok(parent) => self.resolve_loaded_theme(t, Some(parent)),
                                            Err(e) => Err(e),
                                        };
                                        proof {
                                            lemma_loads_from_file_inheriting(
                                                self.builtins(),
                                                self.dirs(),
                                                listing_views(listings@),
                                                fs,
                                                k as int,
                                                path@,
                                                yaml,
                                                name@,
                                                r,
                                                t,
                                                gp,
                                            );
                                        }
                                        r
                                    },
                                }
                            },
                        }
                    },
                }
            },
        }
    }

    /// Parse theme name to extract system (base16/base24) and theme name.
    pub fn parse_theme_name(&self, name: &str) -> (r: Option<(String, String)>)
        ensures
            match split_theme_name(name@) {
                Some((s, n)) => r matches Some((rs, rn)) && rs@ == s && rn@ == n,
                None => r is None,
            },
    {
        let cs = chars_of(name);
        let p16 = chars_of("base16-");
        let p24 = chars_of("base24-");
        proof {
            reveal_strlit("base16-");
            reveal_strlit("base24-");
        }
        if starts_with(&cs, &p16) {
            let rest = slice_chars(&cs, 7, cs.len());
            Some((owned("base16"), string_of(&rest)))
        } else if starts_with(&cs, &p24) {
            let rest = slice_chars(&cs, 7, cs.len());
            Some((owned("base24"), string_of(&rest)))
        } else {
            None
        }
    }

    /// Validate a theme: the sixteen base16 colors must be present and valid.
    pub fn validate_theme(&self, theme: &Theme) -> (r: Result<(), ThemeError>)
        ensures
            r is Ok <==> palette_problem(theme.palette) is None,
            r matches Err(e) ==> error_problem(e) == palette_problem(theme.palette),
    {
        validate_palette(&theme.palette)
    }

    /// Merge parent and child themes.
    pub fn merge_themes(&self, parent: Theme, child: Theme) -> (r: Result<Theme, ThemeError>)
        ensures
            r == Ok::<Theme, ThemeError>(merged_theme(parent, child)),
    {
        let mut parent = parent;
        let c = child.palette;
        parent.palette.base00 = take_or(c.base00, parent.palette.base00);
        parent.palette.base01 = take_or(c.base01, parent.palette.base01);
        parent.palette.base02 = take_or(c.base02, parent.palette.base02);
        parent.palette.base03 = take_or(c.base03, parent.palette.base03);
        parent.palette.base04 = take_or(c.base04, parent.palette.base04);
        parent.palette.base05 = take_or(c.base05, parent.palette.base05);
        parent.palette.base06 = take_or(c.base06, parent.palette.base06);
        parent.palette.base07 = take_or(c.base07, parent.palette.base07);
        parent.palette.base08 = take_or(c.base08, parent.palette.base08);
        parent.palette.base09 = take_or(c.base09, parent.palette.base09);
        parent.palette.base0a = take_or(c.base0a, parent.palette.base0a);
        parent.palette.base0b = take_or(c.base0b, parent.palette.base0b);
        parent.palette.base0c = take_or(c.base0c, parent.palette.base0c);
        parent.palette.base0d = take_or(c.base0d, parent.palette.base0d);
        parent.palette.base0e = take_or(c.base0e, parent.palette.base0e);
        parent.palette.base0f = take_or(c.base0f, parent.palette.base0f);
        parent.palette.base10 = take_or(c.base10, parent.palette.base10);
        parent.palette.base11 = take_or(c.base11, parent.palette.base11);
        parent.palette.base12 = take_or(c.base12, parent.palette.base12);
        parent.palette.base13 = take_or(c.base13, parent.palette.base13);
        parent.palette.base14 = take_or(c.base14, parent.palette.base14);
        parent.palette.base15 = take_or(c.base15, parent.palette.base15);
        parent.palette.base16 = take_or(c.base16, parent.palette.base16);
        parent.palette.base17 = take_or(c.base17, parent.palette.base17);
        parent.scheme = child.scheme;
        parent.system = child.system;
        parent.name = take_or(child.name, parent.name);
        parent.author = take_or(child.author, parent.author);
        parent.description = take_or(child.description, parent.description);
        parent.variant = take_or(child.variant, parent.variant);
        parent.variants = take_or(child.variants, parent.variants);
        parent.overrides = take_or(child.overrides, parent.overrides);
        Ok(parent)
    }

    /// Apply theme overrides.
    pub fn apply_overrides(&self, theme: Theme, overrides: &ThemeOverrides) -> (r: Result<Theme, ThemeError>)
        ensures
            r == Ok::<Theme, ThemeError>(overridden_theme(theme, *overrides)),
    {
        let ghost t0 = theme;
        let mut theme = theme;
        let mut i: usize = 0;
        while i < overrides.palette.len()
            invariant
                i <= overrides.palette@.len(),
                theme == (Theme { palette: palette_overridden(t0.palette, overrides.palette@.take(i as int)), ..t0 }),
            decreases overrides.palette@.len() - i,
        {
            let kv = &overrides.palette[i];
            set_palette_key(&mut theme.palette, kv.0.as_str(), kv.1.clone());
            assert(overrides.palette@.take(i + 1).drop_last() =~= overrides.palette@.take(i as int));
            i = i + 1;
        }
        assert(overrides.palette@.take(overrides.palette@.len() as int) =~= overrides.palette@);
        match &overrides.semantic {
            Some(kvs) => {
                let ghost t1 = theme;
                let mut j: usize = 0;
                while j < kvs.len()
                    invariant
                        j <= kvs@.len(),
                        theme == (Theme { semantic: semantic_overridden(t1.semantic, kvs@.take(j as int)), ..t1 }),
                    decreases kvs@.len() - j,
                {
                    let kv = &kvs[j];
                    set_semantic_key(&mut theme.semantic, kv.0.as_str(), kv.1.clone());
                    assert(kvs@.take(j + 1).drop_last() =~= kvs@.take(j as int));
                    j = j + 1;
                }
                assert(kvs@.take(kvs@.len() as int) =~= kvs@);
            },
            None => {},
        }
        Ok(theme)
    }
}

/// A built-in theme's name, sixteen base16 colors, display name, author,
/// description and variant.
pub struct BuiltinSpec {
    pub key: Seq<char>,
    pub colors: Seq<Seq<char>>,
    pub name: Seq<char>,
    pub author: Seq<char>,
    pub description: Seq<char>,
    pub variant: ThemeVariant,
}

/// The six built-in themes, in the order they are registered.
pub open spec fn builtin_spec(i: int) -> BuiltinSpec {
    if i == 0 {
        BuiltinSpec {
            key: "base16-default-dark"@,
            colors: seq!["#181818"@, "#282828"@, "#383838"@, "#585858"@, "#b8b8b8"@, "#d8d8d8"@, "#e8e8e8"@, "#f8f8f8"@, "#ab4642"@, "#dc9656"@, "#f7ca88"@, "#a1b56c"@, "#86c1b9"@, "#7cafc2"@, "#ba8baf"@, "#a16946"@],
            name: "Base16 Default Dark"@,
            author: "Chris Kempson"@,
            description: "Base16 default dark theme"@,
            variant: ThemeVariant::Dark,
        }
    } else if i == 1 {
        BuiltinSpec {
            key: "base16-default-light"@,
            colors: seq!["#f8f8f8"@, "#e8e8e8"@, "#d8d8d8"@, "#b8b8b8"@, "#585858"@, "#383838"@, "#282828"@, "#181818"@, "#ab4642"@, "#dc9656"@, "#f7ca88"@, "#a1b56c"@, "#86c1b9"@, "#7cafc2"@, "#ba8baf"@, "#a16946"@],
            name: "Base16 Default Light"@,
            author: "Chris Kempson"@,
            description: "Base16 default light theme"@,
            variant: ThemeVariant::Light,
        }
    } else if i == 2 {
        BuiltinSpec {
            key: "base16-catppuccin-mocha"@,
            colors: seq!["#1e1e2e"@, "#181825"@, "#313244"@, "#45475a"@, "#585b70"@, "#cdd6f4"@, "#f5e0dc"@, "#b4befe"@, "#f38ba8"@, "#fab387"@, "#f9e2af"@, "#a6e3a1"@, "#94e2d5"@, "#89b4fa"@, "#cba6f7"@, "#f2cdcd"@],
            name: "Catppuccin Mocha"@,
            author: "https://github.com/catppuccin/catppuccin"@,
            description: "Soothing pastel theme for the high-spirited!"@,
            variant: ThemeVariant::Dark,
        }
    } else if i == 3 {
        BuiltinSpec {
            key: "base16-nord"@,
            colors: seq!["#2E3440"@, "#3B4252"@, "#434C5E"@, "#4C566A"@, "#D8DEE9"@, "#E5E9F0"@, "#ECEFF4"@, "#8FBCBB"@, "#BF616A"@, "#D08770"@, "#EBCB8B"@, "#A3BE8C"@, "#88C0D0"@, "#81A1C1"@, "#B48EAD"@, "#5E81AC"@],
            name: "Nord"@,
            author: "arcticicestudio"@,
            description: "An arctic, north-bluish color palette"@,
            variant: ThemeVariant::Dark,
        }
    } else if i == 4 {
        BuiltinSpec {
            key: "base16-tokyo-night-dark"@,
            colors: seq!["#1A1B26"@, "#16161E"@, "#2F3549"@, "#444B6A"@, "#787C99"@, "#A9B1D6"@, "#CBCCD1"@, "#D5D6DB"@, "#C0CAF5"@, "#A9B1D6"@, "#0DB9D7"@, "#9ECE6A"@, "#B4F9F8"@, "#2AC3DE"@, "#BB9AF7"@, "#F7768E"@],
            name: "Tokyo Night Dark"@,
            author: "Michaël Ball"@,
            description: "A clean, dark theme celebrating the lights of Downtown Tokyo at night"@,
            variant: ThemeVariant::Dark,
        }
    } else {
        BuiltinSpec {
            key: "base16-everforest"@,
            colors: seq!["#2d353b"@, "#343f44"@, "#475258"@, "#859289"@, "#9da9a0"@, "#d3c6aa"@, "#e6e2cc"@, "#fdf6e3"@, "#e67e80"@, "#e69875"@, "#dbbc7f"@, "#a7c080"@, "#83c092"@, "#7fbbb3"@, "#d699b6"@, "#9da9a0"@],
            name: "Everforest"@,
            author: "Sainnhe Park (https://github.com/sainnhe)"@,
            description: "Comfortable & Pleasant Color Scheme"@,
            variant: ThemeVariant::Dark,
        }
    }
}

/// Whether `t` is the built-in theme that `b` describes.
pub open spec fn is_builtin_theme(t: Theme, b: BuiltinSpec) -> bool {
    let p = t.palette;
    &&& t.system == ThemeSystem::Base16
    &&& t.scheme@ == b.key
    &&& opt_chars(p.base00) == Some(b.colors[0])
    &&& opt_chars(p.base01) == Some(b.colors[1])
    &&& opt_chars(p.base02) == Some(b.colors[2])
    &&& opt_chars(p.base03) == Some(b.colors[3])
    &&& opt_chars(p.base04) == Some(b.colors[4])
    &&& opt_chars(p.base05) == Some(b.colors[5])
    &&& opt_chars(p.base06) == Some(b.colors[6])
    &&& opt_chars(p.base07) == Some(b.colors[7])
    &&& opt_chars(p.base08) == Some(b.colors[8])
    &&& opt_chars(p.base09) == Some(b.colors[9])
    &&& opt_chars(p.base0a) == Some(b.colors[10])
    &&& opt_chars(p.base0b) == Some(b.colors[11])
    &&& opt_chars(p.base0c) == Some(b.colors[12])
    &&& opt_chars(p.base0d) == Some(b.colors[13])
    &&& opt_chars(p.base0e) == Some(b.colors[14])
    &&& opt_chars(p.base0f) == Some(b.colors[15])
    &&& p.base10 is None && p.base11 is None && p.base12 is None && p.base13 is None
    &&& p.base14 is None && p.base15 is None && p.base16 is None && p.base17 is None
    &&& is_default_semantic(t.semantic)
    &&& t.inherits is None
    &&& t.variants is None
    &&& t.overrides is None
    &&& opt_chars(t.name) == Some(b.name)
    &&& opt_chars(t.author) == Some(b.author)
    &&& opt_chars(t.description) == Some(b.description)
    &&& t.variant == Some(b.variant)
}

/// The built-in table: the six themes under their names, then the
/// `catppuccin-mocha` alias of the Catppuccin Mocha theme.
pub open spec fn standard_builtins(entries: Seq<(String, Theme)>) -> bool {
    &&& entries.len() == 7
    &&& forall|i: int| 0 <= i < 6 ==> (#[trigger] entries[i]).0@ == builtin_spec(i).key && is_builtin_theme(entries[i].1, builtin_spec(i))
    &&& entries[6].0@ == "catppuccin-mocha"@
    &&& entries[6].1 == entries[2].1
}

proof fn lemma_builtin_colors_0()
    ensures
        forall|k: int| 0 <= k < 16 ==> valid_color(#[trigger] builtin_spec(0).colors[k]),
{
    reveal_strlit("#181818");
    reveal_strlit("#282828");
    reveal_strlit("#383838");
    reveal_strlit("#585858");
    reveal_strlit("#b8b8b8");
    reveal_strlit("#d8d8d8");
    reveal_strlit("#e8e8e8");
    reveal_strlit("#f8f8f8");
    reveal_strlit("#ab4642");
    reveal_strlit("#dc9656");
    reveal_strlit("#f7ca88");
    reveal_strlit("#a1b56c");
    reveal_strlit("#86c1b9");
    reveal_strlit("#7cafc2");
    reveal_strlit("#ba8baf");
    reveal_strlit("#a16946");
    assert forall|k: int| 0 <= k < 16 implies valid_color(#[trigger] builtin_spec(0).colors[k]) by {
        let c = builtin_spec(0).colors[k];
        assert(c.len() == 7 && c[0] == '#');
    }
}

proof fn lemma_builtin_colors_1()
    ensures
        forall|k: int| 0 <= k < 16 ==> valid_color(#[trigger] builtin_spec(1).colors[k]),
{
    reveal_strlit("#f8f8f8");
    reveal_strlit("#e8e8e8");
    reveal_strlit("#d8d8d8");
    reveal_strlit("#b8b8b8");
    reveal_strlit("#585858");
    reveal_strlit("#383838");
    reveal_strlit("#282828");
    reveal_strlit("#181818");
    reveal_strlit("#ab4642");
    reveal_strlit("#dc9656");
    reveal_strlit("#f7ca88");
    reveal_strlit("#a1b56c");
    reveal_strlit("#86c1b9");
    reveal_strlit("#7cafc2");
    reveal_strlit("#ba8baf");
    reveal_strlit("#a16946");
    assert forall|k: int| 0 <= k < 16 implies valid_color(#[trigger] builtin_spec(1).colors[k]) by {
        let c = builtin_spec(1).colors[k];
        assert(c.len() == 7 && c[0] == '#');
    }
}

proof fn lemma_builtin_colors_2()
    ensures
        forall|k: int| 0 <= k < 16 ==> valid_color(#[trigger] builtin_spec(2).colors[k]),
{
    reveal_strlit("#1e1e2e");
    reveal_strlit("#181825");
    reveal_strlit("#313244");
    reveal_strlit("#45475a");
    reveal_strlit("#585b70");
    reveal_strlit("#cdd6f4");
    reveal_strlit("#f5e0dc");
    reveal_strlit("#b4befe");
    reveal_strlit("#f38ba8");
    reveal_strlit("#fab387");
    reveal_strlit("#f9e2af");
    reveal_strlit("#a6e3a1");
    reveal_strlit("#94e2d5");
    reveal_strlit("#89b4fa");
    reveal_strlit("#cba6f7");
    reveal_strlit("#f2cdcd");
    assert forall|k: int| 0 <= k < 16 implies valid_color(#[trigger] builtin_spec(2).colors[k]) by {
        let c = builtin_spec(2).colors[k];
        assert(c.len() == 7 && c[0] == '#');
    }
}

proof fn lemma_builtin_colors_3()
    ensures
        forall|k: int| 0 <= k < 16 ==> valid_color(#[trigger] builtin_spec(3).colors[k]),
{
    reveal_strlit("#2E3440");
    reveal_strlit("#3B4252");
    reveal_strlit("#434C5E");
    reveal_strlit("#4C566A");
    reveal_strlit("#D8DEE9");
    reveal_strlit("#E5E9F0");
    reveal_strlit("#ECEFF4");
    reveal_strlit("#8FBCBB");
    reveal_strlit("#BF616A");
    reveal_strlit("#D08770");
    reveal_strlit("#EBCB8B");
    reveal_strlit("#A3BE8C");
    reveal_strlit("#88C0D0");
    reveal_strlit("#81A1C1");
    reveal_strlit("#B48EAD");
    reveal_strlit("#5E81AC");
    assert forall|k: int| 0 <= k < 16 implies valid_color(#[trigger] builtin_spec(3).colors[k]) by {
        let c = builtin_spec(3).colors[k];
        assert(c.len() == 7 && c[0] == '#');
    }
}

proof fn lemma_builtin_colors_4()
    ensures
        forall|k: int| 0 <= k < 16 ==> valid_color(#[trigger] builtin_spec(4).colors[k]),
{
    reveal_strlit("#1A1B26");
    reveal_strlit("#16161E");
    reveal_strlit("#2F3549");
    reveal_strlit("#444B6A");
    reveal_strlit("#787C99");
    reveal_strlit("#A9B1D6");
    reveal_strlit("#CBCCD1");
    reveal_strlit("#D5D6DB");
    reveal_strlit("#C0CAF5");
    reveal_strlit("#0DB9D7");
    reveal_strlit("#9ECE6A");
    reveal_strlit("#B4F9F8");
    reveal_strlit("#2AC3DE");
    reveal_strlit("#BB9AF7");
    reveal_strlit("#F7768E");
    assert forall|k: int| 0 <= k < 16 implies valid_color(#[trigger] builtin_spec(4).colors[k]) by {
        let c = builtin_spec(4).colors[k];
        assert(c.len() == 7 && c[0] == '#');
    }
}

proof fn lemma_builtin_colors_5()
    ensures
        forall|k: int| 0 <= k < 16 ==> valid_color(#[trigger] builtin_spec(5).colors[k]),
{
    reveal_strlit("#2d353b");
    reveal_strlit("#343f44");
    reveal_strlit("#475258");
    reveal_strlit("#859289");
    reveal_strlit("#9da9a0");
    reveal_strlit("#d3c6aa");
    reveal_strlit("#e6e2cc");
    reveal_strlit("#fdf6e3");
    reveal_strlit("#e67e80");
    reveal_strlit("#e69875");
    reveal_strlit("#dbbc7f");
    reveal_strlit("#a7c080");
    reveal_strlit("#83c092");
    reveal_strlit("#7fbbb3");
    reveal_strlit("#d699b6");
    assert forall|k: int| 0 <= k < 16 implies valid_color(#[trigger] builtin_spec(5).colors[k]) by {
        let c = builtin_spec(5).colors[k];
        assert(c.len() == 7 && c[0] == '#');
    }
}

/// Every built-in theme passes validation: each of its sixteen base16
/// colors is present and a hex color.
pub proof fn lemma_builtin_themes_valid(entries: Seq<(String, Theme)>, i: int)
    requires
        standard_builtins(entries),
        0 <= i < entries.len(),
    ensures
        palette_problem(entries[i].1.palette) is None,
{
    lemma_builtin_colors_0();
    lemma_builtin_colors_1();
    lemma_builtin_colors_2();
    lemma_builtin_colors_3();
    lemma_builtin_colors_4();
    lemma_builtin_colors_5();
    let j = if i == 6 { 2 } else { i };
    assert(entries[j].0@ == builtin_spec(j).key && is_builtin_theme(entries[j].1, builtin_spec(j)));
}

fn make_builtin(
    key: &str,
    c: [&str; 16],
    name: &str,
    author: &str,
    description: &str,
    variant: ThemeVariant,
) -> (t: Theme)
    ensures
        t.system == ThemeSystem::Base16,
        t.scheme@ == key@,
        opt_chars(t.palette.base00) == Some(c@[0]@),
        opt_chars(t.palette.base01) == Some(c@[1]@),
        opt_chars(t.palette.base02) == Some(c@[2]@),
        opt_chars(t.palette.base03) == Some(c@[3]@),
        opt_chars(t.palette.base04) == Some(c@[4]@),
        opt_chars(t.palette.base05) == Some(c@[5]@),
        opt_chars(t.palette.base06) == Some(c@[6]@),
        opt_chars(t.palette.base07) == Some(c@[7]@),
        opt_chars(t.palette.base08) == Some(c@[8]@),
        opt_chars(t.palette.base09) == Some(c@[9]@),
        opt_chars(t.palette.base0a) == Some(c@[10]@),
        opt_chars(t.palette.base0b) == Some(c@[11]@),
        opt_chars(t.palette.base0c) == Some(c@[12]@),
        opt_chars(t.palette.base0d) == Some(c@[13]@),
        opt_chars(t.palette.base0e) == Some(c@[14]@),
        opt_chars(t.palette.base0f) == Some(c@[15]@),
        t.palette.base10 is None && t.palette.base11 is None && t.palette.base12 is None && t.palette.base13 is None,
        t.palette.base14 is None && t.palette.base15 is None && t.palette.base16 is None && t.palette.base17 is None,
        is_default_semantic(t.semantic),
        t.inherits is None,
        t.variants is None,
        t.overrides is None,
        opt_chars(t.name) == Some(name@),
        opt_chars(t.author) == Some(author@),
        opt_chars(t.description) == Some(description@),
        t.variant == Some(variant),
{
    let palette = ThemePalette {
        base00: Some(owned(c[0])),
        base01: Some(owned(c[1])),
        base02: Some(owned(c[2])),
        base03: Some(owned(c[3])),
        base04: Some(owned(c[4])),
        base05: Some(owned(c[5])),
        base06: Some(owned(c[6])),
        base07: Some(owned(c[7])),
        base08: Some(owned(c[8])),
        base09: Some(owned(c[9])),
        base0a: Some(owned(c[10])),
        base0b: Some(owned(c[11])),
        base0c: Some(owned(c[12])),
        base0d: Some(owned(c[13])),
        base0e: Some(owned(c[14])),
        base0f: Some(owned(c[15])),
        base10: None,
        base11: None,
        base12: None,
        base13: None,
        base14: None,
        base15: None,
        base16: None,
        base17: None,
    };
    Theme {
        system: ThemeSystem::Base16,
        scheme: owned(key),
        palette,
        semantic: SemanticColors::default(),
        inherits: None,
        variants: None,
        overrides: None,
        name: Some(owned(name)),
        author: Some(owned(author)),
        description: Some(owned(description)),
        variant: Some(variant),
    }
}

/// The built-in themes, registered in order, with the `catppuccin-mocha` alias last.
fn built_in_themes() -> (r: Vec<(String, Theme)>)
    ensures
        standard_builtins(r@),
        forall|i: int| 0 <= i < r@.len() ==> (#[trigger] r@[i]).1.overrides is None,
{
    let mut r: Vec<(String, Theme)> = Vec::new();
    let t = make_builtin(
        "base16-default-dark",
        ["#181818", "#282828", "#383838", "#585858", "#b8b8b8", "#d8d8d8", "#e8e8e8", "#f8f8f8", "#ab4642", "#dc9656", "#f7ca88", "#a1b56c", "#86c1b9", "#7cafc2", "#ba8baf", "#a16946"],
        "Base16 Default Dark",
        "Chris Kempson",
        "Base16 default dark theme",
        ThemeVariant::Dark,
    );
    r.push((owned("base16-default-dark"), t));
    let t = make_builtin(
        "base16-default-light",
        ["#f8f8f8", "#e8e8e8", "#d8d8d8", "#b8b8b8", "#585858", "#383838", "#282828", "#181818", "#ab4642", "#dc9656", "#f7ca88", "#a1b56c", "#86c1b9", "#7cafc2", "#ba8baf", "#a16946"],
        "Base16 Default Light",
        "Chris Kempson",
        "Base16 default light theme",
        ThemeVariant::Light,
    );
    r.push((owned("base16-default-light"), t));
    let t = make_builtin(
        "base16-catppuccin-mocha",
        ["#1e1e2e", "#181825", "#313244", "#45475a", "#585b70", "#cdd6f4", "#f5e0dc", "#b4befe", "#f38ba8", "#fab387", "#f9e2af", "#a6e3a1", "#94e2d5", "#89b4fa", "#cba6f7", "#f2cdcd"],
        "Catppuccin Mocha",
        "https://github.com/catppuccin/catppuccin",
        "Soothing pastel theme for the high-spirited!",
        ThemeVariant::Dark,
    );
    r.push((owned("base16-catppuccin-mocha"), t));
    let t = make_builtin(
        "base16-nord",
        ["#2E3440", "#3B4252", "#434C5E", "#4C566A", "#D8DEE9", "#E5E9F0", "#ECEFF4", "#8FBCBB", "#BF616A", "#D08770", "#EBCB8B", "#A3BE8C", "#88C0D0", "#81A1C1", "#B48EAD", "#5E81AC"],
        "Nord",
        "arcticicestudio",
        "An arctic, north-bluish color palette",
        ThemeVariant::Dark,
    );
    r.push((owned("base16-nord"), t));
    let t = make_builtin(
        "base16-tokyo-night-dark",
        ["#1A1B26", "#16161E", "#2F3549", "#444B6A", "#787C99", "#A9B1D6", "#CBCCD1", "#D5D6DB", "#C0CAF5", "#A9B1D6", "#0DB9D7", "#9ECE6A", "#B4F9F8", "#2AC3DE", "#BB9AF7", "#F7768E"],
        "Tokyo Night Dark",
        "Michaël Ball",
        "A clean, dark theme celebrating the lights of Downtown Tokyo at night",
        ThemeVariant::Dark,
    );
    r.push((owned("base16-tokyo-night-dark"), t));
    let t = make_builtin(
        "base16-everforest",
        ["#2d353b", "#343f44", "#475258", "#859289", "#9da9a0", "#d3c6aa", "#e6e2cc", "#fdf6e3", "#e67e80", "#e69875", "#dbbc7f", "#a7c080", "#83c092", "#7fbbb3", "#d699b6", "#9da9a0"],
        "Everforest",
        "Sainnhe Park (https://github.com/sainnhe)",
        "Comfortable & Pleasant Color Scheme",
        ThemeVariant::Dark,
    );
    r.push((owned("base16-everforest"), t));
    let alias = copy_plain_theme(&r[2].1);
    r.push((owned("catppuccin-mocha"), alias));
    r
}

/// A theme loaded from a file, finished: merged over its parent (when the
/// caller loaded one for its `inherits`), then with its overrides applied.
pub open spec fn finished_theme(theme: Theme, parent: Option<Theme>) -> Theme {
    let t1 = match parent {
        Some(p) => merged_theme(p, theme),
        None => theme,
    };
    match t1.overrides {
        Some(o) => overridden_theme(t1, o),
        None => t1,
    }
}

impl ThemeLoader {
    /// A loader that searches the configured themes directory, or else the
    /// default ones, and knows the built-in themes.
    pub fn with_config(themes_dir: Option<String>) -> (r: Self)
        ensures
            standard_builtins(r.builtins()),
            match themes_dir {
                Some(d) => r.dirs() == seq![d@],
                None => exists|h: Option<Seq<char>>, c: Option<Seq<char>>| r.dirs() == default_dirs(h, c),
            },
    {
        let dirs = match themes_dir {
            Some(d) => {
                let mut v: Vec<String> = Vec::new();
                v.push(d);
                assert(v@.map_values(|s: String| s@) =~= seq![v@[0]@]);
                v
            },
            None => {
                let h = home_dir();
                let c = config_dir();
                default_theme_dirs(h, c)
            },
        };
        ThemeLoader { theme_dirs: dirs, built_in_themes: built_in_themes() }
    }

    /// A loader with the default theme directories.
    pub fn new() -> (r: Self)
        ensures
            standard_builtins(r.builtins()),
            exists|h: Option<Seq<char>>, c: Option<Seq<char>>| r.dirs() == default_dirs(h, c),
    {
        Self::with_config(None)
    }

    /// Finish a theme loaded from a file: merge it over its parent when one
    /// is given, apply its overrides, and validate it.
    pub fn resolve_loaded_theme(&self, theme: Theme, parent: Option<Theme>) -> (r: Result<Theme, ThemeError>)
        ensures
            r is Ok <==> palette_problem(finished_theme(theme, parent).palette) is None,
            r matches Ok(t) ==> t == finished_theme(theme, parent),
            r matches Err(e) ==> error_problem(e) == palette_problem(finished_theme(theme, parent).palette),
    {
        let t1 = match parent {
            Some(p) => match self.merge_themes(p, theme) {
                Ok(m) => m,
                Err(e) => return Err(e),
            },
            None => theme,
        };
        let Theme { system, scheme, palette, semantic, inherits, variants, overrides, name, author, description, variant } = t1;
        let bare = Theme {
            system,
            scheme,
            palette,
            semantic,
            inherits,
            variants,
            overrides: None,
            name,
            author,
            description,
            variant,
        };
        let t2 = match &overrides {
            Some(o) => match self.apply_overrides(bare, o) {
                Ok(t) => t,
                Err(e) => return Err(e),
            },
            None => bare,
        };
        let Theme { system, scheme, palette, semantic, inherits, variants, overrides: _, name, author, description, variant } = t2;
        let t3 = Theme {
            system,
            scheme,
            palette,
            semantic,
            inherits,
            variants,
            overrides,
            name,
            author,
            description,
            variant,
        };
        match self.validate_theme(&t3) {
            Ok(()) => Ok(t3),
            Err(e) => Err(e),
        }
    }

    /// Information about a theme, loaded as [`ThemeLoader::load_theme`]
    /// loads it.
    pub fn get_theme_info(&self, name: &str, listings: &Vec<ThemeDirListing>, files: Vec<ThemeFile>) -> (r: Result<ThemeInfo, ThemeError>)
        ensures
            info_loads_as(self.builtins(), self.dirs(), listing_views(listings@), files@, name@, r),
    {
        let loaded = self.load_theme(name, listings, files);
        match loaded {
            Ok(theme) => Ok(theme_info(theme, name)),
            Err(e) => Err(e),
        }
    }

    pub fn built_in_theme_names(&self) -> (r: Vec<String>)
        ensures
            r@.map_values(|s: String| s@) == entry_names(self.builtins()),
    {
        let mut r: Vec<String> = Vec::new();
        let mut i: usize = 0;
        while i < self.built_in_themes.len()
            invariant
                i <= self.built_in_themes@.len(),
                r@.len() == i,
                forall|j: int| 0 <= j < i ==> (#[trigger] r@[j])@ == self.built_in_themes@[j].0@,
            decreases self.built_in_themes@.len() - i,
        {
            r.push(self.built_in_themes[i].0.clone());
            i = i + 1;
        }
        assert(r@.map_values(|s: String| s@) =~= entry_names(self.built_in_themes@));
        r
    }
}

impl Default for ThemeLoader {
    fn default() -> (r: Self)
        ensures
            standard_builtins(r.builtins()),
    {
        Self::new()
    }
}


/// What one theme directory holds: the names of the entries directly in
/// it, and of those in its `base16` and `base24` subdirectories.
#[derive(Debug, Clone)]
pub struct ThemeDirListing {
    pub entries: Vec<String>,
    pub base16: Vec<String>,
    pub base24: Vec<String>,
}

/// A listing as plain texts.
pub open spec fn listing_view(l: ThemeDirListing) -> (Seq<Seq<char>>, Seq<Seq<char>>, Seq<Seq<char>>) {
    (string_views(l.entries@), string_views(l.base16@), string_views(l.base24@))
}

/// Listings as plain texts.
pub open spec fn listing_views(ls: Seq<ThemeDirListing>) -> Seq<(Seq<Seq<char>>, Seq<Seq<char>>, Seq<Seq<char>>)> {
    ls.map_values(|l: ThemeDirListing| listing_view(l))
}

/// The legacy themes among the entries of a directory: each name ending in
/// `.toml`, without its `.toml` endings.
pub open spec fn legacy_theme_names(entries: Seq<Seq<char>>) -> Seq<Seq<char>>
    decreases entries.len(),
{
    if entries.len() == 0 {
        Seq::empty()
    } else {
        let rest = legacy_theme_names(entries.drop_last());
        let e = entries.last();
        if has_suffix(e, ".toml"@) {
            rest.push(without_suffixes(e, ".toml"@))
        } else {
            rest
        }
    }
}

/// The tinty themes among the entries of a system's directory: each name
/// ending in `.yaml` or `.yml`, without those endings, after the system's
/// name and `-`.
pub open spec fn tinty_theme_names(system: Seq<char>, entries: Seq<Seq<char>>) -> Seq<Seq<char>>
    decreases entries.len(),
{
    if entries.len() == 0 {
        Seq::empty()
    } else {
        let rest = tinty_theme_names(system, entries.drop_last());
        let e = entries.last();
        if has_suffix(e, ".yaml"@) || has_suffix(e, ".yml"@) {
            rest.push(system + "-"@ + without_suffixes(without_suffixes(e, ".yaml"@), ".yml"@))
        } else {
            rest
        }
    }
}

/// The themes that one theme directory offers.
pub open spec fn listing_theme_names(l: (Seq<Seq<char>>, Seq<Seq<char>>, Seq<Seq<char>>)) -> Seq<Seq<char>> {
    legacy_theme_names(l.0) + tinty_theme_names("base16"@, l.1) + tinty_theme_names("base24"@, l.2)
}

/// The themes that theme directories offer, directory by directory.
pub open spec fn listed_theme_names(ls: Seq<(Seq<Seq<char>>, Seq<Seq<char>>, Seq<Seq<char>>)>) -> Seq<Seq<char>>
    decreases ls.len(),
{
    if ls.len() == 0 {
        Seq::empty()
    } else {
        listed_theme_names(ls.drop_last()) + listing_theme_names(ls.last())
    }
}

/// Every theme name available: the built-in ones, then those of the theme
/// directories.
pub open spec fn available_theme_names(
    builtins: Seq<(String, Theme)>,
    ls: Seq<(Seq<Seq<char>>, Seq<Seq<char>>, Seq<Seq<char>>)>,
) -> Seq<Seq<char>> {
    entry_names(builtins) + listed_theme_names(ls)
}

/// Append the legacy themes among `entries` to `out`.
fn push_legacy_names(out: &mut Vec<String>, entries: &Vec<String>)
    ensures
        string_views(final(out)@) == string_views(old(out)@) + legacy_theme_names(string_views(entries@)),
{
    let ghost ev = string_views(entries@);
    let ghost start = string_views(out@);
    let toml = chars_of(".toml");
    proof {
        reveal_strlit(".toml");
    }
    let mut i: usize = 0;
    assert(ev.take(0) =~= Seq::<Seq<char>>::empty());
    assert(start + legacy_theme_names(ev.take(0)) =~= start);
    while i < entries.len()
        invariant
            i <= entries@.len(),
            ev == string_views(entries@),
            toml@ == ".toml"@,
            string_views(out@) == start + legacy_theme_names(ev.take(i as int)),
        decreases entries@.len() - i,
    {
        assert(ev.take(i + 1).drop_last() =~= ev.take(i as int));
        assert(ev.take(i + 1).last() == entries@[i as int]@);
        let name = chars_of(entries[i].as_str());
        if ends_with(&name, &toml) {
            let ghost before = string_views(out@);
            let t = trim_suffixes(entries[i].as_str(), ".toml");
            out.push(t);
            assert(string_views(out@) =~= before.push(t@));
        }
        i = i + 1;
    }
    assert(ev.take(i as int) =~= ev);
}

/// Append the tinty themes of `system` among `entries` to `out`.
fn push_tinty_names(out: &mut Vec<String>, system: &str, entries: &Vec<String>)
    ensures
        string_views(final(out)@) == string_views(old(out)@) + tinty_theme_names(system@, string_views(entries@)),
{
    let ghost ev = string_views(entries@);
    let ghost start = string_views(out@);
    let yaml = chars_of(".yaml");
    let yml = chars_of(".yml");
    proof {
        reveal_strlit(".yaml");
        reveal_strlit(".yml");
        reveal_strlit("-");
    }
    let mut i: usize = 0;
    assert(ev.take(0) =~= Seq::<Seq<char>>::empty());
    assert(start + tinty_theme_names(system@, ev.take(0)) =~= start);
    while i < entries.len()
        invariant
            i <= entries@.len(),
            ev == string_views(entries@),
            yaml@ == ".yaml"@,
            yml@ == ".yml"@,
            string_views(out@) == start + tinty_theme_names(system@, ev.take(i as int)),
        decreases entries@.len() - i,
    {
        assert(ev.take(i + 1).drop_last() =~= ev.take(i as int));
        assert(ev.take(i + 1).last() == entries@[i as int]@);
        let name = chars_of(entries[i].as_str());
        if ends_with(&name, &yaml) || ends_with(&name, &yml) {
            let ghost before = string_views(out@);
            let a = trim_suffixes(entries[i].as_str(), ".yaml");
            let b = trim_suffixes(a.as_str(), ".yml");
            let mut t = owned(system);
            t.append("-");
            t.append(b.as_str());
            out.push(t);
            assert(string_views(out@) =~= before.push(t@));
        }
        i = i + 1;
    }
    assert(ev.take(i as int) =~= ev);
}

impl ThemeLoader {
    /// Every theme name available, in the order found: the built-in ones,
    /// then those of the listed theme directories.
    fn available_names(&self, listings: &Vec<ThemeDirListing>) -> (r: Vec<String>)
        ensures
            string_views(r@) == available_theme_names(self.builtins(), listing_views(listings@)),
    {
        let mut out = self.built_in_theme_names();
        assert(string_views(out@) == entry_names(self.builtins()));
        let ghost lv = listing_views(listings@);
        let mut i: usize = 0;
        assert(lv.take(0) =~= Seq::<(Seq<Seq<char>>, Seq<Seq<char>>, Seq<Seq<char>>)>::empty());
        assert(entry_names(self.builtins()) + listed_theme_names(lv.take(0)) =~= entry_names(self.builtins()));
        while i < listings.len()
            invariant
                i <= listings@.len(),
                lv == listing_views(listings@),
                string_views(out@) == entry_names(self.builtins()) + listed_theme_names(lv.take(i as int)),
            decreases listings@.len() - i,
        {
            let ghost before = string_views(out@);
            assert(lv.take(i + 1).drop_last() =~= lv.take(i as int));
            assert(lv.take(i + 1).last() == listing_view(listings@[i as int]));
            push_legacy_names(&mut out, &listings[i].entries);
            push_tinty_names(&mut out, "base16", &listings[i].base16);
            push_tinty_names(&mut out, "base24", &listings[i].base24);
            proof {
                reveal_strlit("base16");
                reveal_strlit("base24");
                assert(string_views(out@) =~= before + listing_theme_names(listing_view(listings@[i as int])));
            }
            i = i + 1;
        }
        assert(lv.take(i as int) =~= lv);
        out
    }

    /// The names of every theme available, sorted, each once: the built-in
    /// ones and those that the listed theme directories offer (legacy
    /// `.toml` files, and `.yaml`/`.yml` files of their `base16` and
    /// `base24` subdirectories).
    pub fn list_themes(&self, listings: &Vec<ThemeDirListing>) -> (r: Vec<String>)
        ensures
            strictly_sorted(string_views(r@)),
            forall|t: Seq<char>| #[trigger] string_views(r@).contains(t) <==> available_theme_names(
                self.builtins(),
                listing_views(listings@),
            ).contains(t),
    {
        let names = self.available_names(listings);
        sorted_unique(&names)
    }
}

} // verus!
