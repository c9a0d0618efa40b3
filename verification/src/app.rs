use vstd::prelude::*;

use crate::drm_info::ConnectorInfo;

verus! {

/// State of the display analyzer window: the connectors it shows.
pub struct DisplayAnalyzerApp {
    connectors: Vec<ConnectorInfo>,
}

impl View for DisplayAnalyzerApp {
    type V = Seq<ConnectorInfo>;

    closed spec fn view(&self) -> Seq<ConnectorInfo> {
        self.connectors@
    }
}

impl DisplayAnalyzerApp {
    /// A window showing the connectors found by a scan.
    pub fn new(connectors: Vec<ConnectorInfo>) -> (app: Self)
        ensures
            app@ == connectors@,
    {
        DisplayAnalyzerApp { connectors }
    }

    /// Replaces what the window shows with the result of a new scan.
    pub fn rescan(&mut self, connectors: Vec<ConnectorInfo>)
        ensures
            final(self)@ == connectors@,
    {
        self.connectors = connectors;
    }

    /// The connectors the window shows.
    pub fn connectors(&self) -> (c: &Vec<ConnectorInfo>)
        ensures
            c@ == self@,
    {
        &self.connectors
    }
}

} // verus!
