use vstd::prelude::*;
use crate::database::{spec_acquire, spec_release, Database};
use crate::protocol::{Request, Response, SpecRequest, SpecResponse};

verus! {

/// The registry after a handle's subscription, if it holds one, is given up.
pub open spec fn spec_release_opt(m: Map<u32, nat>, sub: Option<u32>) -> Map<u32, nat> {
    match sub {
        Some(id) => spec_release(m, id),
        None => m,
    }
}

/// Per-connection subscription handle: a connection holds zero or one active
/// subscriptions; subscribing again replaces the old one.
pub struct Channel {
    id: Option<u32>,
}

impl Channel {
    /// The channel this handle is currently subscribed to, if any.
    pub closed spec fn sub(&self) -> Option<u32> {
        self.id
    }

    /// A fresh handle, subscribed to nothing.
    pub fn new() -> (channel: Channel)
        ensures
            channel.sub() == None::<u32>,
    {
        Channel { id: None }
    }

    /// Subscribes to channel `id`, first giving up any prior subscription,
    /// and returns the fresh receiver for the session to await. The old
    /// receiver, if any, is to be dropped by the session.
    pub fn subscribe(&mut self, database: &mut Database, id: u32) -> (rx:
        tokio::sync::broadcast::Receiver<Vec<u8>>)
        requires
            old(database).wf(),
        ensures
            final(database).wf(),
            final(self).sub() == Some(id),
            final(database).kv() == old(database).kv(),
            final(database).subs() == spec_acquire(
                spec_release_opt(old(database).subs(), old(self).sub()),
                id,
            ),
    {
        match self.id {
            Some(old_id) => {
                self.id = None;
                database.unsubscribe(old_id);
            }
            None => {}
        }
        let rx = database.subscribe(id);
        self.id = Some(id);
        rx
    }

    /// Gives up the active subscription, if any; idempotent otherwise. The
    /// session drops its receiver alongside.
    pub fn unsubscribe(&mut self, database: &mut Database)
        requires
            old(database).wf(),
        ensures
            final(database).wf(),
            final(self).sub() == None::<u32>,
            final(database).kv() == old(database).kv(),
            final(database).subs() == spec_release_opt(old(database).subs(), old(self).sub()),
    {
        match self.id {
            Some(old_id) => {
                self.id = None;
                database.unsubscribe(old_id);
            }
            None => {}
        }
    }
}

impl Default for Channel {
    /// A fresh handle, as `Channel::new` gives.
    fn default() -> (channel: Channel)
        ensures
            channel.sub() == None::<u32>,
    {
        Channel::new()
    }
}

/// What a handled request obliges the session loop to do with the receiver it
/// holds beside its `Channel`: keep it, attach this fresh one, or drop it.
pub enum SubscriptionChange {
    Unchanged,
    Attach(tokio::sync::broadcast::Receiver<Vec<u8>>),
    Detach,
}

/// The one response each request earns, against the store as the request
/// found it: Ping answers Pong; Get answers the value or NotFound; Put
/// answers Okay; Delete and Publish answer Okay when the key or channel was
/// there, NotFound otherwise; Subscribe and Unsubscribe always answer Okay.
pub open spec fn spec_response_for(
    kv: Map<Seq<u8>, Seq<u8>>,
    subs: Map<u32, nat>,
    req: SpecRequest,
) -> SpecResponse {
    match req {
        SpecRequest::Ping => SpecResponse::Pong,
        SpecRequest::Get(key) => if kv.contains_key(key) {
            SpecResponse::Get(kv[key])
        } else {
            SpecResponse::NotFound
        },
        SpecRequest::Put(_, _) => SpecResponse::Okay,
        SpecRequest::Delete(key) => if kv.contains_key(key) {
            SpecResponse::Okay
        } else {
            SpecResponse::NotFound
        },
        SpecRequest::Publish(id, _) => if subs.contains_key(id) {
            SpecResponse::Okay
        } else {
            SpecResponse::NotFound
        },
        SpecRequest::Subscribe(_) => SpecResponse::Okay,
        SpecRequest::Unsubscribe => SpecResponse::Okay,
    }
}

/// The key/value map after a request is applied.
pub open spec fn spec_kv_after(kv: Map<Seq<u8>, Seq<u8>>, req: SpecRequest) -> Map<
    Seq<u8>,
    Seq<u8>,
> {
    match req {
        SpecRequest::Put(key, value) => kv.insert(key, value),
        SpecRequest::Delete(key) => kv.remove(key),
        _ => kv,
    }
}

/// The registry after a request is applied, for a session whose handle holds
/// `sub`.
pub open spec fn spec_subs_after(
    subs: Map<u32, nat>,
    sub: Option<u32>,
    req: SpecRequest,
) -> Map<u32, nat> {
    match req {
        SpecRequest::Subscribe(id) => spec_acquire(spec_release_opt(subs, sub), id),
        SpecRequest::Unsubscribe => spec_release_opt(subs, sub),
        _ => subs,
    }
}

/// The handle's subscription after a request is applied.
pub open spec fn spec_sub_after(sub: Option<u32>, req: SpecRequest) -> Option<u32> {
    match req {
        SpecRequest::Subscribe(id) => Some(id),
        SpecRequest::Unsubscribe => None::<u32>,
        _ => sub,
    }
}

/// Applies one decoded request to the store and this session's subscription
/// handle, and returns the one response owed for it, together with what the
/// session loop must do with the receiver it holds.
pub fn handle_request(database: &mut Database, channel: &mut Channel, request: Request) -> (r: (
    Response,
    SubscriptionChange,
))
    requires
        old(database).wf(),
    ensures
        final(database).wf(),
        r.0@ == spec_response_for(old(database).kv(), old(database).subs(), request@),
        final(database).kv() == spec_kv_after(old(database).kv(), request@),
        final(database).subs() == spec_subs_after(
            old(database).subs(),
            old(channel).sub(),
            request@,
        ),
        final(channel).sub() == spec_sub_after(old(channel).sub(), request@),
        (r.1 is Attach) == (request@ is Subscribe),
        (r.1 is Detach) == (request@ is Unsubscribe),
{
    match request {
        Request::Ping => (Response::Pong, SubscriptionChange::Unchanged),
        Request::Get(key) => {
            match database.get(key.as_slice()) {
                Some(data) => (Response::Get(data), SubscriptionChange::Unchanged),
                None => (Response::NotFound, SubscriptionChange::Unchanged),
            }
        }
        Request::Put(key, value) => {
            database.set(key, value);
            (Response::Okay, SubscriptionChange::Unchanged)
        }
        Request::Delete(key) => {
            if database.delete(key.as_slice()) {
                (Response::Okay, SubscriptionChange::Unchanged)
            } else {
                (Response::NotFound, SubscriptionChange::Unchanged)
            }
        }
        Request::Publish(id, payload) => {
            if database.publish(id, payload) {
                (Response::Okay, SubscriptionChange::Unchanged)
            } else {
                (Response::NotFound, SubscriptionChange::Unchanged)
            }
        }
        Request::Subscribe(id) => {
            let rx = channel.subscribe(database, id);
            (Response::Okay, SubscriptionChange::Attach(rx))
        }
        Request::Unsubscribe => {
            channel.unsubscribe(database);
            (Response::Okay, SubscriptionChange::Detach)
        }
    }
}

} // verus!
