//! Filled document structure: what a layout produces and a renderer draws.
use vstd::prelude::*;
use crate::types::TextStyle;

verus! {

/// A filled document ready for rendering
#[derive(Debug, Clone)]
pub struct FilledDocument {
    pub pages: Vec<FilledPage>,
}

#[derive(Debug, Clone)]
pub struct FilledPage {
    pub width: u32,
    pub height: u32,
    pub elements: Vec<FilledElement>,
}

#[derive(Debug, Clone)]
pub enum FilledElement {
    Text(FilledText),
}

/// A text placed on the page: its box, in points from the top left corner, its text and style.
#[derive(Debug, Clone)]
pub struct FilledText {
    pub x: u32,
    pub y: u32,
    pub width: u32,
    pub height: u32,
    pub text: String,
    pub style: TextStyle,
}

/// The mathematical value of a placed text.
pub struct TextView {
    pub x: u32,
    pub y: u32,
    pub width: u32,
    pub height: u32,
    pub text: Seq<char>,
    pub style: TextStyle,
}

/// The mathematical value of a page.
pub struct PageView {
    pub width: u32,
    pub height: u32,
    pub elements: Seq<TextView>,
}

impl View for FilledText {
    type V = TextView;

    open spec fn view(&self) -> TextView {
        TextView {
            x: self.x,
            y: self.y,
            width: self.width,
            height: self.height,
            text: self.text@,
            style: self.style,
        }
    }
}

impl View for FilledElement {
    type V = TextView;

    open spec fn view(&self) -> TextView {
        match self {
            FilledElement::Text(t) => t@,
        }
    }
}

impl View for FilledPage {
    type V = PageView;

    open spec fn view(&self) -> PageView {
        PageView {
            width: self.width,
            height: self.height,
            elements: self.elements@.map_values(|e: FilledElement| e@),
        }
    }
}

impl View for FilledDocument {
    type V = Seq<PageView>;

    open spec fn view(&self) -> Seq<PageView> {
        self.pages@.map_values(|p: FilledPage| p@)
    }
}

impl FilledDocument {
    pub fn new() -> (r: Self)
        ensures
            r@.len() == 0,
    {
        FilledDocument { pages: Vec::new() }
    }

    pub fn add_page(&mut self, page: FilledPage)
        ensures
            final(self)@ == old(self)@.push(page@),
    {
        self.pages.push(page);
        assert(self@ =~= old(self)@.push(page@));
    }
}

impl Default for FilledDocument {
    fn default() -> (r: Self)
        ensures
            r@.len() == 0,
    {
        Self::new()
    }
}

impl FilledPage {
    pub fn new(width: u32, height: u32) -> (r: Self)
        ensures
            r@ == (PageView { width, height, elements: Seq::empty() }),
    {
        let r = FilledPage { width, height, elements: Vec::new() };
        assert(r@.elements =~= Seq::<TextView>::empty());
        r
    }

    pub fn add_element(&mut self, element: FilledElement)
        ensures
            final(self)@ == (PageView { elements: old(self)@.elements.push(element@), ..old(self)@ }),
    {
        self.elements.push(element);
        assert(self@.elements =~= old(self)@.elements.push(element@));
    }
}

} // verus!
