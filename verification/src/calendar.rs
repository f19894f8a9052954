//! An ordered collection of events, queried one day at a time.

use vstd::prelude::*;
use crate::date::Date;
use crate::event::{Event, EventOccurance, OccurrenceView};

verus! {

/// The occurrences that the events produce on date `d`, in the order the
/// events stand in the collection.
pub open spec fn day_views(events: Seq<Event>, d: Date) -> Seq<OccurrenceView>
    decreases events.len(),
{
    if events.len() == 0 {
        Seq::empty()
    } else {
        let rest = day_views(events.drop_last(), d);
        match events.last().occurrence_view_at(d) {
            Some(v) => rest.push(v),
            None => rest,
        }
    }
}

/// An ordered collection of events.
#[derive(Debug)]
pub struct Calendar {
    pub events: Vec<Event>,
}

impl Default for Calendar {
    /// The same empty calendar that `Calendar::new` builds.
    fn default() -> (r: Calendar)
        ensures
            r.events@ == Seq::<Event>::empty(),
            r.wf(),
    {
        Calendar { events: Vec::new() }
    }
}

impl Calendar {
    pub open spec fn wf(self) -> bool {
        forall|i: int| 0 <= i < self.events@.len() ==> (#[trigger] self.events@[i]).wf()
    }

    /// A new, empty calendar.
    pub fn new() -> (r: Calendar)
        ensures
            r.events@ == Seq::<Event>::empty(),
            r.wf(),
    {
        Calendar { events: Vec::new() }
    }

    /// Appends the event to the collection.
    pub fn add_event(&mut self, event: Event)
        requires
            old(self).wf(),
            event.wf(),
        ensures
            final(self).events@ == old(self).events@.push(event),
            final(self).wf(),
    {
        self.events.push(event);
    }

    /// The occurrences of this calendar's events on the given day, in
    /// event order, one per event that produces one.
    pub fn day(&self, date: Date) -> (r: Vec<EventOccurance>)
        requires
            self.wf(),
            date.wf(),
        ensures
            r@.map_values(|o: EventOccurance| o@) == day_views(self.events@, date),
    {
        let mut result: Vec<EventOccurance> = Vec::new();
        let mut i: usize = 0;
        let n: usize = self.events.len();
        assert(result@.map_values(|o: EventOccurance| o@)
            =~= day_views(self.events@.take(0), date));
        while i < n
            invariant
                0 <= i <= n,
                n == self.events@.len(),
                self.wf(),
                date.wf(),
                result@.map_values(|o: EventOccurance| o@)
                    == day_views(self.events@.take(i as int), date),
            decreases n - i,
        {
            let ghost prefix = self.events@.take(i as int);
            let ghost before = result@;
            match self.events[i].get_occurrence_at(date) {
                Some(occurrence) => {
                    result.push(occurrence);
                },
                None => {},
            }
            proof {
                let next = self.events@.take(i + 1);
                assert(next.drop_last() =~= prefix);
                assert(next.last() == self.events@[i as int]);
                assert(result@.map_values(|o: EventOccurance| o@)
                    =~= day_views(next, date));
            }
            i = i + 1;
        }
        proof {
            assert(self.events@.take(n as int) =~= self.events@);
        }
        result
    }
}

} // verus!
