//! Label schemas: the names and requested column widths that a caller
//! attaches to each measurement row it pushes into a table.

use vstd::prelude::*;

verus! {

/// Metadata about a label: its column name and its requested column width.
pub struct LabelMeta {
    name: &'static str,
    width: usize,
}

impl LabelMeta {
    pub closed spec fn spec_name(&self) -> Seq<char> {
        self.name@
    }

    pub closed spec fn spec_width(&self) -> usize {
        self.width
    }

    /// The label's column name.
    pub fn name(&self) -> (r: &'static str)
        ensures
            r@ == self.spec_name(),
    {
        self.name
    }

    /// The label's requested column width.
    pub fn width(&self) -> (r: usize)
        ensures
            r == self.spec_width(),
    {
        self.width
    }

    /// A label with the default column width of nine characters.
    pub fn new(name: &'static str) -> (r: LabelMeta)
        ensures
            r.spec_name() == name@,
            r.spec_width() == 9,
    {
        LabelMeta { name, width: 9 }
    }

    /// The same label with another requested column width.
    pub fn with_width(self, width: usize) -> (r: LabelMeta)
        ensures
            r.spec_name() == self.spec_name(),
            r.spec_width() == width,
    {
        LabelMeta { width, ..self }
    }
}

/// A set of labels attached to a measurement: a fixed schema of names and
/// widths, and one value per schema entry for each measurement.
pub trait Labels {
    /// The label schema, in order.
    fn meta() -> Vec<LabelMeta>;

    /// The label values of one measurement, in schema order.
    fn values(&self) -> Vec<String>;
}

/// No labels.
impl Labels for () {
    fn meta() -> Vec<LabelMeta> {
        Vec::new()
    }

    fn values(&self) -> Vec<String> {
        Vec::new()
    }
}

/// One label named `label`, thirty characters wide.
impl Labels for str {
    fn meta() -> Vec<LabelMeta> {
        let mut m = Vec::new();
        m.push(LabelMeta { name: "label", width: 30 });
        m
    }

    fn values(&self) -> Vec<String> {
        let mut v = Vec::new();
        v.push(self.to_owned());
        v
    }
}

} // verus!
