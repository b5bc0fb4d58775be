//! Inline icons and what they link to.

use vstd::prelude::*;

verus! {

/// An image named by a paragraph: its alternative text and its address.
#[derive(Debug)]
pub struct ImageInfo {
    pub alt: String,
    pub url: String,
}

impl Clone for ImageInfo {
    fn clone(&self) -> (r: Self)
        ensures
            r == *self,
    {
        ImageInfo { alt: self.alt.clone(), url: self.url.clone() }
    }
}

/// The target of a link inside a paragraph.
#[derive(Debug)]
pub enum LinkInfo {
    /// A note of the same note space.
    File(String),
    /// An address outside the note space.
    Link(String),
    Image(ImageInfo),
}

impl Clone for LinkInfo {
    fn clone(&self) -> (r: Self)
        ensures
            r == *self,
    {
        match self {
            LinkInfo::File(s) => LinkInfo::File(s.clone()),
            LinkInfo::Link(s) => LinkInfo::Link(s.clone()),
            LinkInfo::Image(i) => LinkInfo::Image(i.clone()),
        }
    }
}

#[allow(non_camel_case_types)]
#[derive(Debug)]
pub enum IconName {
    icon_chevron_left,
    icon_chevron_down,
    icon_format_font_size,
    icon_wrap_text,
    icon_sort_numerically,
    icon_external_link(LinkInfo),
    icon_home,
    icon_refresh,
    icon_file_rename,
    icon_delete,
    icon_new,
    icon_unfixed,
    icon_fixed,
    icon_close,
}

impl Clone for IconName {
    fn clone(&self) -> (r: Self)
        ensures
            r == *self,
    {
        match self {
            IconName::icon_chevron_left => IconName::icon_chevron_left,
            IconName::icon_chevron_down => IconName::icon_chevron_down,
            IconName::icon_format_font_size => IconName::icon_format_font_size,
            IconName::icon_wrap_text => IconName::icon_wrap_text,
            IconName::icon_sort_numerically => IconName::icon_sort_numerically,
            IconName::icon_external_link(l) => IconName::icon_external_link(l.clone()),
            IconName::icon_home => IconName::icon_home,
            IconName::icon_refresh => IconName::icon_refresh,
            IconName::icon_file_rename => IconName::icon_file_rename,
            IconName::icon_delete => IconName::icon_delete,
            IconName::icon_new => IconName::icon_new,
            IconName::icon_unfixed => IconName::icon_unfixed,
            IconName::icon_fixed => IconName::icon_fixed,
            IconName::icon_close => IconName::icon_close,
        }
    }
}

impl IconName {
    /// The glyph of the icon font that draws this icon.
    pub open spec fn glyph(self) -> char {
        match self {
            IconName::icon_chevron_left => '\u{e900}',
            IconName::icon_chevron_down => '\u{e901}',
            IconName::icon_format_font_size => '\u{e902}',
            IconName::icon_wrap_text => '\u{e903}',
            IconName::icon_sort_numerically => '\u{e904}',
            IconName::icon_external_link(_) => '\u{e905}',
            IconName::icon_home => '\u{e906}',
            IconName::icon_refresh => '\u{e907}',
            IconName::icon_file_rename => '\u{e908}',
            IconName::icon_delete => '\u{e909}',
            IconName::icon_new => '\u{e90A}',
            IconName::icon_unfixed => '\u{e90B}',
            IconName::icon_fixed => '\u{e90C}',
            IconName::icon_close => '\u{e90D}',
        }
    }

    pub fn to_char(&self) -> (c: char)
        ensures
            c == self.glyph(),
    {
        match self {
            IconName::icon_chevron_left => '\u{e900}',
            IconName::icon_chevron_down => '\u{e901}',
            IconName::icon_format_font_size => '\u{e902}',
            IconName::icon_wrap_text => '\u{e903}',
            IconName::icon_sort_numerically => '\u{e904}',
            IconName::icon_external_link(_) => '\u{e905}',
            IconName::icon_home => '\u{e906}',
            IconName::icon_refresh => '\u{e907}',
            IconName::icon_file_rename => '\u{e908}',
            IconName::icon_delete => '\u{e909}',
            IconName::icon_new => '\u{e90A}',
            IconName::icon_unfixed => '\u{e90B}',
            IconName::icon_fixed => '\u{e90C}',
            IconName::icon_close => '\u{e90D}',
        }
    }
}

} // verus!
