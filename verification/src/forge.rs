//! The sex-forge scaffolding tool: its arguments, the choice of application
//! template, the rendering of a template for an application name, and the
//! components it can upgrade.
use vstd::prelude::*;
use vstd::string::StringSliceAdditionalSpecFns;

verus! {

/// The base an application is scaffolded from.
#[derive(Debug, Clone, Copy, PartialEq, Eq, PartialOrd, Ord, Structural)]
pub enum BaseTemplate {
    CosmicFiles,
    CosmicPanel,
    CosmicAppletNetwork,
    CosmicSettings,
    CosmicApplets,
    Servo,
    RustMedia,
    CosmicEdit,
    RedoxCalc,
}

/// Arguments of `new`.
pub struct NewArgs {
    pub name: String,
    pub base: Option<BaseTemplate>,
    pub template: Option<String>,
}

/// Arguments of `port-from`.
pub struct PortFromArgs {
    pub source: String,
    pub recipe: String,
}

/// Arguments of `upgrade`.
pub struct UpgradeArgs {
    pub component: String,
}

/// The template set an application is created from.
#[derive(Debug, Clone, Copy, PartialEq, Eq, Structural)]
pub enum TemplateSet {
    Default,
    Base(BaseTemplate),
}

/// The templates of a base: its own, or the default ones without a base.
pub fn template_set(base: Option<BaseTemplate>) -> (t: TemplateSet)
    ensures
        t == (match base {
            Some(b) => TemplateSet::Base(b),
            None => TemplateSet::Default,
        }),
{
    match base {
        Some(b) => TemplateSet::Base(b),
        None => TemplateSet::Default,
    }
}

/// The directory, under the templates, of a template set.
pub open spec fn spec_template_dir(t: TemplateSet) -> Seq<char> {
    match t {
        TemplateSet::Default => "default"@,
        TemplateSet::Base(BaseTemplate::CosmicFiles) => "cosmic_files"@,
        TemplateSet::Base(BaseTemplate::CosmicPanel) => "cosmic_panel"@,
        TemplateSet::Base(BaseTemplate::CosmicAppletNetwork) => "cosmic_applet_network"@,
        TemplateSet::Base(BaseTemplate::CosmicSettings) => "cosmic_settings"@,
        TemplateSet::Base(BaseTemplate::CosmicApplets) => "cosmic_applets"@,
        TemplateSet::Base(BaseTemplate::Servo) => "servo"@,
        TemplateSet::Base(BaseTemplate::RustMedia) => "rust_media"@,
        TemplateSet::Base(BaseTemplate::CosmicEdit) => "cosmic_edit"@,
        TemplateSet::Base(BaseTemplate::RedoxCalc) => "redox_calc"@,
    }
}

/// The directory that holds the `main.rs.tpl` and `Cargo.toml.tpl` of a template set.
pub fn template_dir(t: TemplateSet) -> (d: &'static str)
    ensures
        d@ == spec_template_dir(t),
{
    match t {
        TemplateSet::Default => "default",
        TemplateSet::Base(BaseTemplate::CosmicFiles) => "cosmic_files",
        TemplateSet::Base(BaseTemplate::CosmicPanel) => "cosmic_panel",
        TemplateSet::Base(BaseTemplate::CosmicAppletNetwork) => "cosmic_applet_network",
        TemplateSet::Base(BaseTemplate::CosmicSettings) => "cosmic_settings",
        TemplateSet::Base(BaseTemplate::CosmicApplets) => "cosmic_applets",
        TemplateSet::Base(BaseTemplate::Servo) => "servo",
        TemplateSet::Base(BaseTemplate::RustMedia) => "rust_media",
        TemplateSet::Base(BaseTemplate::CosmicEdit) => "cosmic_edit",
        TemplateSet::Base(BaseTemplate::RedoxCalc) => "redox_calc",
    }
}

/// The bytes of `{{app_name}}`.
pub open spec fn name_placeholder() -> Seq<u8> {
    seq![123u8, 123u8, 97u8, 112u8, 112u8, 95u8, 110u8, 97u8, 109u8, 101u8, 125u8, 125u8]
}

/// `s` starts with `p`.
pub open spec fn has_prefix(s: Seq<u8>, p: Seq<u8>) -> bool {
    s.len() >= p.len() && s.take(p.len() as int) == p
}

/// `s` with every occurrence of the non-empty `p` replaced by `r`, scanning from
/// the left without overlaps.
pub open spec fn replace_all(s: Seq<u8>, p: Seq<u8>, r: Seq<u8>) -> Seq<u8>
    decreases s.len(),
{
    if s.len() == 0 {
        Seq::empty()
    } else if p.len() > 0 && has_prefix(s, p) {
        r + replace_all(s.skip(p.len() as int), p, r)
    } else {
        seq![s[0]] + replace_all(s.skip(1), p, r)
    }
}

fn has_prefix_at(s: &[u8], i: usize, p: &[u8]) -> (b: bool)
    requires
        i <= s@.len(),
    ensures
        b == has_prefix(s@.skip(i as int), p@),
{
    if s.len() - i < p.len() {
        return false;
    }
    let n: usize = s.len();
    let mut k: usize = 0;
    while k < p.len()
        invariant
            k <= p@.len(),
            n == s@.len(),
            i + p@.len() <= s@.len(),
            forall|j: int| 0 <= j < k ==> s@[i + j] == p@[j],
        decreases p@.len() - k,
    {
        if s[i + k] != p[k] {
            proof {
                assert(s@.skip(i as int).take(p@.len() as int)[k as int] != p@[k as int]);
            }
            return false;
        }
        k += 1;
    }
    proof {
        assert(s@.skip(i as int).take(p@.len() as int) =~= p@);
    }
    true
}

/// The template `tpl` with every `{{app_name}}` replaced by the application's name.
pub fn render_template(tpl: &[u8], name: &[u8]) -> (out: Vec<u8>)
    ensures
        out@ == replace_all(tpl@, name_placeholder(), name@),
{
    let ph: [u8; 12] = [123u8, 123u8, 97u8, 112u8, 112u8, 95u8, 110u8, 97u8, 109u8, 101u8, 125u8, 125u8];
    proof {
        assert(ph@ == name_placeholder());
    }
    let mut out: Vec<u8> = Vec::new();
    let mut i: usize = 0;
    proof {
        assert(tpl@.skip(0) == tpl@);
    }
    while i < tpl.len()
        invariant
            i <= tpl@.len(),
            ph@ == name_placeholder(),
            out@ + replace_all(tpl@.skip(i as int), name_placeholder(), name@) == replace_all(
                tpl@,
                name_placeholder(),
                name@,
            ),
        decreases tpl@.len() - i,
    {
        let ghost rest = tpl@.skip(i as int);
        if has_prefix_at(tpl, i, ph.as_slice()) {
            let ghost before = out@;
            let mut k: usize = 0;
            while k < name.len()
                invariant
                    k <= name@.len(),
                    out@ == before + name@.take(k as int),
                decreases name@.len() - k,
            {
                out.push(name[k]);
                proof {
                    assert(name@.take(k + 1) == name@.take(k as int).push(name@[k as int]));
                }
                k += 1;
            }
            proof {
                assert(name@.take(name@.len() as int) == name@);
                assert(rest.skip(12) == tpl@.skip(i + 12));
                assert(out@ + replace_all(tpl@.skip(i + 12), name_placeholder(), name@) =~= before
                    + replace_all(rest, name_placeholder(), name@));
            }
            i = i + 12;
        } else {
            let ghost before = out@;
            out.push(tpl[i]);
            proof {
                assert(rest.skip(1) == tpl@.skip(i + 1));
                assert(rest[0] == tpl@[i as int]);
                assert(out@ + replace_all(tpl@.skip(i + 1), name_placeholder(), name@) =~= before
                    + replace_all(rest, name_placeholder(), name@));
            }
            i = i + 1;
        }
    }
    proof {
        assert(tpl@.skip(tpl@.len() as int) == Seq::<u8>::empty());
        assert(out@ + Seq::<u8>::empty() == out@);
    }
    out
}

/// The directory of application `name`: `apps/` then the name.
pub fn app_dir(name: &[u8]) -> (p: Vec<u8>)
    ensures
        p@ == seq![97u8, 112u8, 112u8, 115u8, 47u8] + name@,
{
    let mut p: Vec<u8> = Vec::new();
    p.push(97u8);
    p.push(112u8);
    p.push(112u8);
    p.push(115u8);
    p.push(47u8);
    let ghost head = p@;
    let mut k: usize = 0;
    while k < name.len()
        invariant
            k <= name@.len(),
            p@ == head + name@.take(k as int),
        decreases name@.len() - k,
    {
        p.push(name[k]);
        proof {
            assert(name@.take(k + 1) == name@.take(k as int).push(name@[k as int]));
        }
        k += 1;
    }
    proof {
        assert(name@.take(name@.len() as int) == name@);
    }
    p
}

/// The bytes of `terminal`.
pub open spec fn terminal_word() -> Seq<u8> {
    seq![116u8, 101u8, 114u8, 109u8, 105u8, 110u8, 97u8, 108u8]
}

/// Whether `upgrade` knows the component: only the terminal can be upgraded.
pub fn can_upgrade(component: &str) -> (ok: bool)
    ensures
        ok == (component.spec_bytes() == terminal_word()),
{
    let b = component.as_bytes();
    let t: [u8; 8] = [116u8, 101u8, 114u8, 109u8, 105u8, 110u8, 97u8, 108u8];
    proof {
        assert(t@ == terminal_word());
    }
    if b.len() != 8 {
        return false;
    }
    let mut k: usize = 0;
    while k < 8
        invariant
            k <= 8,
            b@.len() == 8,
            b@ == component.spec_bytes(),
            t@ == terminal_word(),
            forall|j: int| 0 <= j < k ==> b@[j] == t@[j],
        decreases 8 - k,
    {
        if b[k] != t[k] {
            proof {
                assert(b@[k as int] != terminal_word()[k as int]);
            }
            return false;
        }
        k += 1;
    }
    proof {
        assert(b@ =~= t@);
    }
    true
}

} // verus!
