use vstd::prelude::*;
use vstd::string::StringExecFns;

verus! {

/// What a widget does when the pointer hovers over text.
#[derive(Clone, Copy, Debug, PartialEq, Eq, Structural)]
pub enum CursorConfig {
    /// Hover events are raised and the pointer's icon changes.
    Default,
    /// Hover events are raised; the icon is left to the application.
    Events,
    /// Nothing is done.
    Disabled,
}

impl Default for CursorConfig {
    fn default() -> (config: Self)
        ensures
            config == CursorConfig::Default,
    {
        CursorConfig::Default
    }
}

impl CursorConfig {
    /// Whether the systems that raise hover events are installed.
    pub fn raises_hover_events(&self) -> (yes: bool)
        ensures
            yes == (*self != CursorConfig::Disabled),
    {
        match self {
            CursorConfig::Default => true,
            CursorConfig::Events => true,
            CursorConfig::Disabled => false,
        }
    }

    /// Whether the system that changes the pointer's icon is installed.
    pub fn changes_cursor_icon(&self) -> (yes: bool)
        ensures
            yes == (*self == CursorConfig::Default),
    {
        match self {
            CursorConfig::Default => true,
            _ => false,
        }
    }
}

/// Where fonts are loaded from.
pub struct CosmicFontConfig {
    /// A directory of which every font is loaded.
    pub fonts_dir_path: Option<String>,
    /// Fonts held in memory.
    pub font_bytes: Option<Vec<Vec<u8>>>,
    /// Whether the fonts that the system has installed are loaded. This can
    /// be slow.
    pub load_system_fonts: bool,
}

/// One step of loading fonts.
#[derive(Clone, Copy, Debug, PartialEq, Eq, Structural)]
pub enum FontSource {
    /// Every font of the configured directory.
    Directory,
    /// The font held in memory at this index of the configured list.
    Bytes(usize),
    /// The fonts that the system has installed.
    System,
}

/// The number of fonts that a configuration holds in memory.
pub open spec fn memory_fonts(config: CosmicFontConfig) -> nat {
    match config.font_bytes {
        Some(fonts) => fonts@.len(),
        None => 0,
    }
}

/// The steps by which a configuration's fonts are loaded, in order: the
/// directory where one is set, then each font held in memory, then the
/// system's fonts where they are asked for.
pub open spec fn load_plan(config: CosmicFontConfig) -> Seq<FontSource> {
    let first = if config.fonts_dir_path is Some {
        seq![FontSource::Directory]
    } else {
        Seq::<FontSource>::empty()
    };
    let middle = Seq::new(memory_fonts(config), |i: int| FontSource::Bytes(i as usize));
    let last = if config.load_system_fonts {
        seq![FontSource::System]
    } else {
        Seq::<FontSource>::empty()
    };
    first + middle + last
}

/// The locale for which fonts are chosen when the system names none.
pub open spec fn fallback_locale() -> Seq<char> {
    "en-US"@
}

/// `sys_locale::get_locale`: the locale that the system or the environment
/// prefers, if any. It depends on the machine, so nothing is claimed of it.
#[verifier::external_body]
fn system_locale() -> (locale: Option<String>) {
    sys_locale::get_locale()
}

/// The locale to use, given what the system names.
pub fn locale_or_default(found: Option<String>) -> (locale: String)
    ensures
        locale@ == (match found {
            Some(name) => name@,
            None => fallback_locale(),
        }),
{
    match found {
        Some(name) => name,
        None => String::from_str("en-US"),
    }
}

/// The locale for which fonts are chosen: the system's, or the fallback
/// where the system names none.
pub fn font_locale() -> (locale: String) {
    locale_or_default(system_locale())
}

impl CosmicFontConfig {
    /// The configuration that loads one font from memory and nothing else.
    pub fn with_fallback(font: Vec<u8>) -> (config: CosmicFontConfig)
        ensures
            config.fonts_dir_path is None,
            !config.load_system_fonts,
            config.font_bytes matches Some(fonts) && fonts@ == seq![font],
            load_plan(config) == seq![FontSource::Bytes(0)],
    {
        let mut fonts: Vec<Vec<u8>> = Vec::new();
        fonts.push(font);
        let config = CosmicFontConfig {
            fonts_dir_path: None,
            font_bytes: Some(fonts),
            load_system_fonts: false,
        };
        assert(load_plan(config) =~= seq![FontSource::Bytes(0)]);
        config
    }

    /// Lists the steps by which the fonts are loaded, in order.
    pub fn sources(&self) -> (plan: Vec<FontSource>)
        ensures
            plan@ == load_plan(*self),
    {
        let mut plan: Vec<FontSource> = Vec::new();
        if self.fonts_dir_path.is_some() {
            plan.push(FontSource::Directory);
        }
        let ghost first = plan@;
        match &self.font_bytes {
            Some(fonts) => {
                let mut i: usize = 0;
                while i < fonts.len()
                    invariant
                        i <= fonts.len(),
                        plan@ == first + Seq::new(i as nat, |k: int| FontSource::Bytes(k as usize)),
                    decreases fonts.len() - i,
                {
                    plan.push(FontSource::Bytes(i));
                    i = i + 1;
                    assert(plan@ =~= first + Seq::new(
                        i as nat,
                        |k: int| FontSource::Bytes(k as usize),
                    ));
                }
            },
            None => {
                assert(plan@ =~= first + Seq::new(0, |k: int| FontSource::Bytes(k as usize)));
            },
        }
        if self.load_system_fonts {
            plan.push(FontSource::System);
        }
        assert(plan@ =~= load_plan(*self));
        plan
    }
}

} // verus!
