use vstd::prelude::*;

verus! {

/// A failure of one identifier's extraction, with its message.
pub struct ScraperError(pub String);

impl ScraperError {
    /// The message of the failure.
    pub fn message(&self) -> (r: String)
        ensures
            r@ == self.0@,
    {
        self.0.clone()
    }
}

/// The fields extracted from one quote page, each possibly empty, and how
/// they were found.
pub struct StockData {
    pub code: String,
    pub name: String,
    pub price: String,
    pub change: String,
    pub change_percent: String,
    pub update_time: String,
    pub selector_type: String,
}

/// What a record holds, as plain text.
pub struct RecordView {
    pub code: Seq<char>,
    pub name: Seq<char>,
    pub price: Seq<char>,
    pub change: Seq<char>,
    pub change_percent: Seq<char>,
    pub update_time: Seq<char>,
    pub selector_type: Seq<char>,
}

impl View for StockData {
    type V = RecordView;

    open spec fn view(&self) -> RecordView {
        RecordView {
            code: self.code@,
            name: self.name@,
            price: self.price@,
            change: self.change@,
            change_percent: self.change_percent@,
            update_time: self.update_time@,
            selector_type: self.selector_type@,
        }
    }
}

impl StockData {
    /// A record is usable when it has a name.
    pub open spec fn usable(&self) -> bool {
        self.name@.len() > 0
    }
}

} // verus!
