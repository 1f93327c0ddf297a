use vstd::prelude::*;

use crate::error::{ServiceError, ServiceResult};
use crate::product::{display_name_of, display_name_text, Product, ProductView, Sku, SkuView};
use crate::quantity::{fancy_display, packaging_text, Quantity, Unit};
use crate::store::{
    has_key, keys_of, lemma_max_of_bounds, lemma_update_same_key, max_of, Record,
    RecordStore,
};
use crate::text::{contains_text, lower_of, lowercase, matches_folded, occurs_in};

verus! {

/// The views of a sequence of products.
pub open spec fn product_views(s: Seq<Product>) -> Seq<ProductView> {
    s.map_values(|p: Product| p@)
}

/// The views of a sequence of SKUs.
pub open spec fn sku_views(s: Seq<Sku>) -> Seq<SkuView> {
    s.map_values(|k: Sku| k@)
}

/// The identities of `ps`, in order.
pub open spec fn product_ids(ps: Seq<ProductView>) -> Seq<u32> {
    ps.map_values(|p: ProductView| p.product_id)
}

/// The identities of `ss`, in order.
pub open spec fn sku_ids(ss: Seq<SkuView>) -> Seq<u32> {
    ss.map_values(|s: SkuView| s.sku)
}

/// Whether a product of `ps` has identity `id`.
pub open spec fn has_product(ps: Seq<ProductView>, id: u32) -> bool {
    exists|j: int| 0 <= j < ps.len() && #[trigger] ps[j].product_id == id
}

/// Whether a SKU of `ss` has identity `id`.
pub open spec fn has_sku(ss: Seq<SkuView>, id: u32) -> bool {
    exists|i: int| 0 <= i < ss.len() && #[trigger] ss[i].sku == id
}

/// Whether a SKU of `ss` has identity `id` and belongs to product `pid`.
pub open spec fn has_sku_of(ss: Seq<SkuView>, id: u32, pid: u32) -> bool {
    exists|i: int| 0 <= i < ss.len() && #[trigger] ss[i].sku == id && ss[i].product_id == pid
}

/// The products of `ps` whose identity `ids` lists, in store order.
pub open spec fn select_products(ps: Seq<ProductView>, ids: Seq<u32>) -> Seq<ProductView>
    decreases ps.len(),
{
    if ps.len() == 0 {
        Seq::empty()
    } else {
        let rest = select_products(ps.drop_last(), ids);
        if ids.contains(ps.last().product_id) {
            rest.push(ps.last())
        } else {
            rest
        }
    }
}

/// The SKUs of `ss` whose identity `ids` lists, in store order.
pub open spec fn select_skus(ss: Seq<SkuView>, ids: Seq<u32>) -> Seq<SkuView>
    decreases ss.len(),
{
    if ss.len() == 0 {
        Seq::empty()
    } else {
        let rest = select_skus(ss.drop_last(), ids);
        if ids.contains(ss.last().sku) {
            rest.push(ss.last())
        } else {
            rest
        }
    }
}

/// The identities of the products of `ps` whose name holds `query`, case ignored.
pub open spec fn products_matching(ps: Seq<ProductView>, query: Seq<char>) -> Seq<u32>
    decreases ps.len(),
{
    if ps.len() == 0 {
        Seq::empty()
    } else {
        let rest = products_matching(ps.drop_last(), query);
        if matches_folded(query, ps.last().name) {
            rest.push(ps.last().product_id)
        } else {
            rest
        }
    }
}

/// The identities of the SKUs of `ss` whose display name holds `query`, case ignored.
pub open spec fn skus_matching(ss: Seq<SkuView>, query: Seq<char>) -> Seq<u32>
    decreases ss.len(),
{
    if ss.len() == 0 {
        Seq::empty()
    } else {
        let rest = skus_matching(ss.drop_last(), query);
        if matches_folded(query, ss.last().display_name) {
            rest.push(ss.last().sku)
        } else {
            rest
        }
    }
}

/// `s` after its product has become `p`: a SKU of `p` takes the product's name and unit, and
/// its derived fields follow; any other SKU stays as it is.
pub open spec fn synced(s: SkuView, p: ProductView) -> SkuView {
    if s.product_id == p.product_id {
        SkuView {
            parent_name: p.name,
            unit: p.unit,
            display_packaging: packaging_text(s.quantity, p.unit),
            display_name: display_name_text(p.name, s.sub_name, packaging_text(s.quantity, p.unit)),
            ..s
        }
    } else {
        s
    }
}

/// The SKUs `ss` after their product has become `p`.
pub open spec fn cascade(ss: Seq<SkuView>, p: ProductView) -> Seq<SkuView> {
    ss.map_values(|s: SkuView| synced(s, p))
}

/// `s` with a new own name and quantity: its derived fields follow, and it stays divisible only
/// with a simple quantity.
pub open spec fn with_contents(s: SkuView, sub_name: Seq<char>, q: Quantity) -> SkuView {
    SkuView {
        sub_name,
        quantity: q,
        can_divide: s.can_divide && q is Simple,
        display_packaging: packaging_text(q, s.unit),
        display_name: display_name_text(s.parent_name, sub_name, packaging_text(q, s.unit)),
        ..s
    }
}

/// Every SKU is well formed and belongs to an existing product.
pub open spec fn skus_grounded(ps: Seq<ProductView>, ss: Seq<SkuView>) -> bool {
    forall|i: int| 0 <= i < ss.len() ==> (#[trigger] ss[i]).wf() && has_product(ps, ss[i].product_id)
}

/// Every SKU carries the current name and unit of its product.
pub open spec fn skus_in_sync(ps: Seq<ProductView>, ss: Seq<SkuView>) -> bool {
    forall|i: int, j: int|
        0 <= i < ss.len() && 0 <= j < ps.len() && #[trigger] ss[i].product_id == #[trigger] ps[j].product_id
            ==> ss[i].parent_name == ps[j].name && ss[i].unit == ps[j].unit
}

/// Every SKU that a product lists belongs to that product.
pub open spec fn sku_lists_sound(ps: Seq<ProductView>, ss: Seq<SkuView>) -> bool {
    forall|j: int, k: int|
        0 <= j < ps.len() && 0 <= k < ps[j].skus.len() ==> has_sku_of(
            ss,
            #[trigger] ps[j].skus[k],
            ps[j].product_id,
        )
}

/// The products and SKUs agree with one another.
pub open spec fn catalog_consistent(ps: Seq<ProductView>, ss: Seq<SkuView>) -> bool {
    &&& skus_grounded(ps, ss)
    &&& skus_in_sync(ps, ss)
    &&& sku_lists_sound(ps, ss)
}

/// The catalog: the products and their SKUs, each kept in a store of its own.
pub struct ProductService {
    products: RecordStore<Product>,
    skus: RecordStore<Sku>,
}

impl ProductService {
    /// The products, in insertion order.
    pub closed spec fn products_view(&self) -> Seq<ProductView> {
        product_views(self.products@)
    }

    /// The SKUs, in insertion order.
    pub closed spec fn skus_view(&self) -> Seq<SkuView> {
        sku_views(self.skus@)
    }

    /// Identities are distinct in each store, and the two stores agree.
    pub closed spec fn wf(&self) -> bool {
        &&& self.products.wf()
        &&& self.skus.wf()
        &&& catalog_consistent(self.products_view(), self.skus_view())
    }

    /// Identities are distinct within each view.
    pub proof fn lemma_ids_unique(&self)
        requires
            self.wf(),
        ensures
            forall|a: int, b: int|
                0 <= a < b < self.products_view().len() ==> #[trigger] self.products_view()[a].product_id
                    != #[trigger] self.products_view()[b].product_id,
            forall|a: int, b: int|
                0 <= a < b < self.skus_view().len() ==> #[trigger] self.skus_view()[a].sku
                    != #[trigger] self.skus_view()[b].sku,
    {
        assert forall|a: int, b: int|
            0 <= a < b < self.products_view().len() implies #[trigger] self.products_view()[a].product_id
                != #[trigger] self.products_view()[b].product_id by {
            assert(self.products@[a].key() != self.products@[b].key());
        }
        assert forall|a: int, b: int|
            0 <= a < b < self.skus_view().len() implies #[trigger] self.skus_view()[a].sku
                != #[trigger] self.skus_view()[b].sku by {
            assert(self.skus@[a].key() != self.skus@[b].key());
        }
    }
}

impl ProductService {
    /// Builds the catalog from two stores; refused when they do not agree with one another.
    pub fn init(products: RecordStore<Product>, skus: RecordStore<Sku>) -> (r: ServiceResult<Self>)
        requires
            products.wf(),
            skus.wf(),
        ensures
            match r {
                Ok(c) => c.wf() && c.products_view() == product_views(products@) && c.skus_view()
                    == sku_views(skus@),
                Err(e) => !catalog_consistent(product_views(products@), sku_views(skus@))
                    && e is InternalError,
            },
    {
        let ghost pv = product_views(products@);
        let ghost sv = sku_views(skus@);
        let n = skus.len();
        let mut i: usize = 0;
        while i < n
            invariant
                products.wf(),
                skus.wf(),
                pv == product_views(products@),
                sv == sku_views(skus@),
                n == sv.len(),
                i <= n,
                forall|a: int| 0 <= a < i ==> (#[trigger] sv[a]).wf() && has_product(pv, sv[a].product_id),
                forall|a: int, j: int|
                    0 <= a < i && 0 <= j < pv.len() && #[trigger] sv[a].product_id
                        == #[trigger] pv[j].product_id ==> sv[a].parent_name == pv[j].name
                        && sv[a].unit == pv[j].unit,
            decreases n - i,
        {
            let s = skus.get(i);
            assert(s@ == sv[i as int]);
            let packaging = fancy_display(&s.quantity, &s.unit);
            let name = display_name_of(
                s.parent_name.as_str(),
                s.sub_name.as_str(),
                s.display_packaging.as_str(),
            );
            let divides_badly = match s.quantity {
                Quantity::Simple(_) => false,
                Quantity::Complex(_, _) => s.can_divide,
            };
            if packaging != s.display_packaging || name != s.display_name || divides_badly {
                assert(!sv[i as int].wf());
                return Err(ServiceError::internal_error("a stored SKU is inconsistent"));
            }
            match products.position(s.product_id) {
                None => {
                    assert(!has_product(pv, sv[i as int].product_id)) by {
                        if has_product(pv, sv[i as int].product_id) {
                            let j = choose|j: int| 0 <= j < pv.len() && #[trigger] pv[j].product_id == sv[i as int].product_id;
                            assert(products@[j].key() == s.product_id);
                        }
                    }
                    return Err(ServiceError::internal_error("a stored SKU has no product"));
                },
                Some(j) => {
                    let p = products.get(j);
                    assert(p@ == pv[j as int]);
                    assert(pv[j as int].product_id == sv[i as int].product_id);
                    if p.name != s.parent_name || p.unit != s.unit {
                        assert(!skus_in_sync(pv, sv));
                        return Err(ServiceError::internal_error("a stored SKU is out of date"));
                    }
                    assert forall|jj: int|
                        0 <= jj < pv.len() && #[trigger] pv[jj].product_id == sv[i as int].product_id
                            implies sv[i as int].parent_name == pv[jj].name && sv[i as int].unit
                        == pv[jj].unit by {
                        if jj != j {
                            assert(products@[jj].key() == products@[j as int].key());
                            if jj < j {
                                assert(products@[jj].key() != products@[j as int].key());
                            } else {
                                assert(products@[j as int].key() != products@[jj].key());
                            }
                        }
                    }
                    assert(sv[i as int].wf());
                    assert(has_product(pv, sv[i as int].product_id));
                },
            }
            i = i + 1;
        }
        let m = products.len();
        let mut j: usize = 0;
        while j < m
            invariant
                products.wf(),
                skus.wf(),
                pv == product_views(products@),
                sv == sku_views(skus@),
                m == pv.len(),
                j <= m,
                forall|b: int, k: int|
                    0 <= b < j && 0 <= k < pv[b].skus.len() ==> has_sku_of(
                        sv,
                        #[trigger] pv[b].skus[k],
                        pv[b].product_id,
                    ),
            decreases m - j,
        {
            let p = products.get(j);
            assert(p@ == pv[j as int]);
            let c = p.skus.len();
            let mut k: usize = 0;
            while k < c
                invariant
                    products.wf(),
                    skus.wf(),
                    pv == product_views(products@),
                    sv == sku_views(skus@),
                    m == pv.len(),
                    j < m,
                    p@ == pv[j as int],
                    c == p@.skus.len(),
                    k <= c,
                    forall|b: int, kk: int|
                        0 <= b < j && 0 <= kk < pv[b].skus.len() ==> has_sku_of(
                            sv,
                            #[trigger] pv[b].skus[kk],
                            pv[b].product_id,
                        ),
                    forall|kk: int|
                        0 <= kk < k ==> has_sku_of(sv, #[trigger] pv[j as int].skus[kk], pv[j as int].product_id),
                decreases c - k,
            {
                let id = p.skus[k];
                match skus.position(id) {
                    None => {
                        assert(!has_sku_of(sv, id, p.product_id)) by {
                            if has_sku_of(sv, id, p.product_id) {
                                let a = choose|a: int| 0 <= a < sv.len() && #[trigger] sv[a].sku == id && sv[a].product_id == p.product_id;
                                assert(skus@[a].key() == id);
                            }
                        }
                        assert(!sku_lists_sound(pv, sv)) by {
                            assert(pv[j as int].skus[k as int] == id);
                        }
                        return Err(ServiceError::internal_error("a product lists a missing SKU"));
                    },
                    Some(a) => {
                        let s = skus.get(a);
                        assert(s@ == sv[a as int]);
                        if s.product_id != p.product_id {
                            assert(!has_sku_of(sv, id, p.product_id)) by {
                                if has_sku_of(sv, id, p.product_id) {
                                    let a2 = choose|a2: int| 0 <= a2 < sv.len() && #[trigger] sv[a2].sku == id && sv[a2].product_id == p.product_id;
                                    assert(skus@[a2].key() == skus@[a as int].key());
                                    if a2 < a {
                                        assert(skus@[a2].key() != skus@[a as int].key());
                                    } else if a2 > a {
                                        assert(skus@[a as int].key() != skus@[a2].key());
                                    }
                                }
                            }
                            assert(!sku_lists_sound(pv, sv)) by {
                                assert(pv[j as int].skus[k as int] == id);
                            }
                            return Err(ServiceError::internal_error("a product lists a foreign SKU"));
                        }
                        assert(sv[a as int].sku == id);
                    },
                }
                k = k + 1;
            }
            j = j + 1;
        }
        Ok(ProductService { products, skus })
    }
}

/// Whether `id` is among `ids`.
fn contains_id(ids: &Vec<u32>, id: u32) -> (r: bool)
    ensures
        r == ids@.contains(id),
{
    let n = ids.len();
    let mut i: usize = 0;
    while i < n
        invariant
            n == ids@.len(),
            i <= n,
            forall|k: int| 0 <= k < i ==> ids@[k] != id,
        decreases n - i,
    {
        if ids[i] == id {
            assert(ids@[i as int] == id);
            return true;
        }
        i = i + 1;
    }
    false
}

/// An identity above the largest one in use is free.
proof fn lemma_above_max_is_free(pv: Seq<ProductView>, id: u32)
    requires
        id > max_of(product_ids(pv)),
    ensures
        !has_product(pv, id),
{
    lemma_max_of_bounds(product_ids(pv));
    if has_product(pv, id) {
        let j = choose|j: int| 0 <= j < pv.len() && #[trigger] pv[j].product_id == id;
        assert(product_ids(pv)[j] == id);
    }
}

/// An identity above the largest one in use is free.
proof fn lemma_above_max_is_free_sku(sv: Seq<SkuView>, id: u32)
    requires
        id > max_of(sku_ids(sv)),
    ensures
        !has_sku(sv, id),
{
    lemma_max_of_bounds(sku_ids(sv));
    if has_sku(sv, id) {
        let i = choose|i: int| 0 <= i < sv.len() && #[trigger] sv[i].sku == id;
        assert(sku_ids(sv)[i] == id);
    }
}

impl ProductService {
    /// Get next product id to use
    pub fn next_product_id(&self) -> (r: ServiceResult<u32>)
        ensures
            match r {
                Ok(id) => id == max_of(product_ids(self.products_view())) + 1,
                Err(e) => max_of(product_ids(self.products_view())) == u32::MAX && e is InternalError,
            },
    {
        assert(keys_of(self.products@) =~= product_ids(self.products_view()));
        self.products.next_id()
    }

    /// Get next SKU id to use
    pub fn next_sku(&self) -> (r: ServiceResult<u32>)
        ensures
            match r {
                Ok(id) => id == max_of(sku_ids(self.skus_view())) + 1,
                Err(e) => max_of(sku_ids(self.skus_view())) == u32::MAX && e is InternalError,
            },
    {
        assert(keys_of(self.skus@) =~= sku_ids(self.skus_view()));
        self.skus.next_id()
    }

    /// Create new product: the unit text must name a unit, and the identity is allocated and
    /// taken in this one call.
    pub fn create_product(
        &mut self,
        name: String,
        description: String,
        unit: &str,
        created_by: u32,
    ) -> (r: ServiceResult<Product>)
        requires
            old(self).wf(),
        ensures
            final(self).wf(),
            match r {
                Ok(p) => {
                    &&& Unit::parse_spec(unit@) == Some(p@.unit)
                    &&& max_of(product_ids(old(self).products_view())) < u32::MAX
                    &&& p@.product_id == max_of(product_ids(old(self).products_view())) + 1
                    &&& p@.name == name@
                    &&& p@.description == description@
                    &&& p@.skus.len() == 0
                    &&& p@.created_by == created_by
                    &&& final(self).products_view() == old(self).products_view().push(p@)
                    &&& final(self).skus_view() == old(self).skus_view()
                },
                Err(e) => {
                    &&& final(self).products_view() == old(self).products_view()
                    &&& final(self).skus_view() == old(self).skus_view()
                    &&& (Unit::parse_spec(unit@) is None && e is BadRequest) || (Unit::parse_spec(
                        unit@,
                    ) is Some && max_of(product_ids(old(self).products_view())) == u32::MAX
                        && e is InternalError)
                },
            },
    {
        let unit = match Unit::try_from_str(unit) {
            Ok(u) => u,
            Err(e) => return Err(e),
        };
        let id = match self.next_product_id() {
            Ok(id) => id,
            Err(e) => return Err(e),
        };
        let ghost pv = self.products_view();
        let ghost sv = self.skus_view();
        let new_product = Product::new(id, name, description, unit, created_by);
        let copy = new_product.clone();
        proof {
            lemma_above_max_is_free(pv, id);
            if has_key(self.products@, id) {
                let j = choose|j: int| 0 <= j < self.products@.len() && #[trigger] self.products@[j].key() == id;
                assert(pv[j].product_id == id);
            }
        }
        match self.products.insert(new_product) {
            Ok(()) => {},
            Err(e) => return Err(e),
        }
        proof {
            let pv2 = self.products_view();
            assert(pv2 =~= pv.push(copy@));
            assert(self.skus_view() == sv);
            assert forall|i: int| 0 <= i < sv.len() implies (#[trigger] sv[i]).wf() && has_product(
                pv2,
                sv[i].product_id,
            ) by {
                let j = choose|j: int| 0 <= j < pv.len() && #[trigger] pv[j].product_id == sv[i].product_id;
                assert(pv2[j] == pv[j]);
            }
            assert forall|i: int, j: int|
                0 <= i < sv.len() && 0 <= j < pv2.len() && #[trigger] sv[i].product_id
                    == #[trigger] pv2[j].product_id implies sv[i].parent_name == pv2[j].name
                && sv[i].unit == pv2[j].unit by {
                if j == pv.len() {
                    assert(has_product(pv, sv[i].product_id));
                } else {
                    assert(pv2[j] == pv[j]);
                }
            }
            assert forall|j: int, k: int|
                0 <= j < pv2.len() && 0 <= k < pv2[j].skus.len() implies has_sku_of(
                sv,
                #[trigger] pv2[j].skus[k],
                pv2[j].product_id,
            ) by {
                assert(pv2[j] == pv[j]);
            }
        }
        Ok(copy)
    }

    /// Get all product ids, in insertion order
    pub fn get_product_all(&self) -> (r: ServiceResult<Vec<u32>>)
        ensures
            r matches Ok(v) && v@ == product_ids(self.products_view()),
    {
        let v = self.products.ids();
        assert(keys_of(self.products@) =~= product_ids(self.products_view()));
        Ok(v)
    }

    /// Get product by ID
    pub fn get_product(&self, product_id: u32) -> (r: ServiceResult<Product>)
        requires
            self.wf(),
        ensures
            match r {
                Ok(p) => p@.product_id == product_id && exists|j: int|
                    0 <= j < self.products_view().len() && self.products_view()[j] == p@,
                Err(e) => !has_product(self.products_view(), product_id) && e is NotFound,
            },
    {
        let ghost pv = self.products_view();
        match self.products.position(product_id) {
            Some(j) => {
                let p = self.products.get(j).clone();
                assert(pv[j as int] == p@);
                Ok(p)
            },
            None => {
                assert(!has_product(pv, product_id)) by {
                    if has_product(pv, product_id) {
                        let j = choose|j: int| 0 <= j < pv.len() && #[trigger] pv[j].product_id == product_id;
                        assert(self.products@[j].key() == product_id);
                    }
                }
                Err(ServiceError::not_found("product not found"))
            },
        }
    }

    /// Get the products whose ids are listed, in store order; unknown ids are left out.
    pub fn get_product_bulk(&self, product_ids: &Vec<u32>) -> (r: ServiceResult<Vec<Product>>)
        ensures
            r matches Ok(v) && product_views(v@) == select_products(
                self.products_view(),
                product_ids@,
            ),
    {
        let ghost pv = self.products_view();
        let n = self.products.len();
        let mut res: Vec<Product> = Vec::new();
        let mut i: usize = 0;
        while i < n
            invariant
                pv == self.products_view(),
                n == pv.len(),
                i <= n,
                product_views(res@) == select_products(pv.subrange(0, i as int), product_ids@),
            decreases n - i,
        {
            let p = self.products.get(i);
            assert(pv.subrange(0, i + 1).drop_last() =~= pv.subrange(0, i as int));
            assert(pv[i as int] == p@);
            if contains_id(product_ids, p.product_id) {
                let c = p.clone();
                let ghost before = res@;
                res.push(c);
                assert(product_views(res@) =~= product_views(before).push(c@));
            }
            i = i + 1;
        }
        assert(pv.subrange(0, n as int) =~= pv);
        Ok(res)
    }

    /// Find products whose name holds the query, case ignored
    pub fn find_product(&self, query: &str) -> (r: ServiceResult<Vec<u32>>)
        ensures
            r matches Ok(v) && v@ == products_matching(self.products_view(), query@),
    {
        let ghost pv = self.products_view();
        let q = lowercase(query);
        let n = self.products.len();
        let mut res: Vec<u32> = Vec::new();
        let mut i: usize = 0;
        while i < n
            invariant
                pv == self.products_view(),
                n == pv.len(),
                i <= n,
                q@ == lower_of(query@),
                res@ == products_matching(pv.subrange(0, i as int), query@),
            decreases n - i,
        {
            let p = self.products.get(i);
            assert(pv.subrange(0, i + 1).drop_last() =~= pv.subrange(0, i as int));
            assert(pv[i as int] == p@);
            let name = lowercase(p.name.as_str());
            if contains_text(name.as_str(), q.as_str()) {
                res.push(p.product_id);
            }
            i = i + 1;
        }
        assert(pv.subrange(0, n as int) =~= pv);
        Ok(res)
    }
}

impl ProductService {
    /// Update a product, then bring every SKU of that product in line with it. Fails when the
    /// product does not exist, or when the unit text names no unit; then nothing changes.
    pub fn update_product(
        &mut self,
        product_id: u32,
        name: String,
        description: String,
        unit: &str,
    ) -> (r: ServiceResult<Product>)
        requires
            old(self).wf(),
        ensures
            final(self).wf(),
            match r {
                Ok(p) => exists|j: int|
                    {
                        &&& 0 <= j < old(self).products_view().len()
                        &&& old(self).products_view()[j].product_id == product_id
                        &&& Unit::parse_spec(unit@) == Some(p@.unit)
                        &&& p@ == (ProductView {
                            name: name@,
                            description: description@,
                            unit: p@.unit,
                            ..old(self).products_view()[j]
                        })
                        &&& final(self).products_view() == old(self).products_view().update(j, p@)
                        &&& final(self).skus_view() == cascade(old(self).skus_view(), p@)
                    },
                Err(e) => {
                    &&& final(self).products_view() == old(self).products_view()
                    &&& final(self).skus_view() == old(self).skus_view()
                    &&& (!has_product(old(self).products_view(), product_id) && e is NotFound) || (
                    has_product(old(self).products_view(), product_id) && Unit::parse_spec(unit@) is None
                        && e is BadRequest)
                },
            },
    {
        let ghost pv = self.products_view();
        let ghost sv = self.skus_view();
        proof {
            self.lemma_ids_unique();
        }
        let j = match self.products.position(product_id) {
            Some(j) => j,
            None => {
                assert(!has_product(pv, product_id)) by {
                    if has_product(pv, product_id) {
                        let j = choose|j: int| 0 <= j < pv.len() && #[trigger] pv[j].product_id == product_id;
                        assert(self.products@[j].key() == product_id);
                    }
                }
                return Err(ServiceError::not_found("product not found"));
            },
        };
        assert(pv[j as int].product_id == product_id);
        let unit = match Unit::try_from_str(unit) {
            Ok(u) => u,
            Err(e) => return Err(e),
        };
        let ghost ps0 = self.products@;
        let p = self.products.get_mut(j);
        p.update(name, description, unit);
        proof {
            lemma_update_same_key(ps0, j as int, self.products@[j as int]);
        }
        let res = self.products.get(j).clone();
        let ghost pv1 = self.products_view();
        assert(pv1 =~= pv.update(j as int, res@));
        let n = self.skus.len();
        let mut i: usize = 0;
        while i < n
            invariant
                self.products_view() == pv1,
                self.products.wf(),
                self.skus.wf(),
                n == sv.len(),
                self.skus_view().len() == n,
                res@.product_id == product_id,
                i <= n,
                skus_grounded(pv, sv),
                forall|k: int| 0 <= k < i ==> #[trigger] self.skus_view()[k] == synced(sv[k], res@),
                forall|k: int| i <= k < n ==> #[trigger] self.skus_view()[k] == sv[k],
            decreases n - i,
        {
            let ghost ss0 = self.skus@;
            assert(self.skus_view()[i as int] == sv[i as int]);
            let s = self.skus.get_mut(i);
            if s.product_id == product_id {
                s.update_parent(&res);
            }
            proof {
                lemma_update_same_key(ss0, i as int, self.skus@[i as int]);
                assert forall|k: int| 0 <= k < n && k != i implies #[trigger] self.skus_view()[k]
                    == sku_views(ss0)[k] by {}
            }
            i = i + 1;
        }
        proof {
            let sv1 = self.skus_view();
            assert(sv1 =~= cascade(sv, res@));
            assert forall|a: int| 0 <= a < sv1.len() implies (#[trigger] sv1[a]).wf() && has_product(
                pv1,
                sv1[a].product_id,
            ) by {
                assert(sv[a].wf());
                let b = choose|b: int| 0 <= b < pv.len() && #[trigger] pv[b].product_id == sv[a].product_id;
                assert(pv1[b].product_id == pv[b].product_id);
            }
            assert forall|a: int, b: int|
                0 <= a < sv1.len() && 0 <= b < pv1.len() && #[trigger] sv1[a].product_id
                    == #[trigger] pv1[b].product_id implies sv1[a].parent_name == pv1[b].name
                && sv1[a].unit == pv1[b].unit by {
                if b != j {
                    assert(pv1[b] == pv[b]);
                    if sv[a].product_id == product_id {
                        assert(pv[b].product_id == pv[j as int].product_id);
                    }
                    assert(sv1[a] == sv[a]);
                }
            }
            assert forall|b: int, k: int|
                0 <= b < pv1.len() && 0 <= k < pv1[b].skus.len() implies has_sku_of(
                sv1,
                #[trigger] pv1[b].skus[k],
                pv1[b].product_id,
            ) by {
                assert(pv1[b].skus == pv[b].skus);
                assert(has_sku_of(sv, pv[b].skus[k], pv[b].product_id));
                let a = choose|a: int| 0 <= a < sv.len() && #[trigger] sv[a].sku == pv[b].skus[k] && sv[a].product_id == pv[b].product_id;
                assert(sv1[a].sku == sv[a].sku);
            }
        }
        Ok(res)
    }
}

impl ProductService {
    /// A change to the SKU at `i` that keeps its identity, its product, the name and unit taken
    /// from the product, and its consistency keeps the catalog consistent.
    proof fn lemma_sku_replaced(pv: Seq<ProductView>, sv: Seq<SkuView>, i: int, s: SkuView)
        requires
            catalog_consistent(pv, sv),
            0 <= i < sv.len(),
            s.wf(),
            s.sku == sv[i].sku,
            s.product_id == sv[i].product_id,
            s.parent_name == sv[i].parent_name,
            s.unit == sv[i].unit,
        ensures
            catalog_consistent(pv, sv.update(i, s)),
    {
        let sv1 = sv.update(i, s);
        assert forall|a: int| 0 <= a < sv1.len() implies (#[trigger] sv1[a]).wf() && has_product(
            pv,
            sv1[a].product_id,
        ) by {
            assert(sv[a].wf() && has_product(pv, sv[a].product_id));
        }
        assert forall|a: int, b: int|
            0 <= a < sv1.len() && 0 <= b < pv.len() && #[trigger] sv1[a].product_id
                == #[trigger] pv[b].product_id implies sv1[a].parent_name == pv[b].name
            && sv1[a].unit == pv[b].unit by {
            assert(sv[a].product_id == pv[b].product_id);
        }
        assert forall|b: int, k: int|
            0 <= b < pv.len() && 0 <= k < pv[b].skus.len() implies has_sku_of(
            sv1,
            #[trigger] pv[b].skus[k],
            pv[b].product_id,
        ) by {
            assert(has_sku_of(sv, pv[b].skus[k], pv[b].product_id));
            let a = choose|a: int| 0 <= a < sv.len() && #[trigger] sv[a].sku == pv[b].skus[k] && sv[a].product_id == pv[b].product_id;
            assert(sv1[a].sku == sv[a].sku);
        }
    }

    /// Create new SKU of an existing product: the quantity text must be `N` or `MxN`; the
    /// identity is allocated and taken in this one call, and the product lists the new SKU.
    pub fn create_sku(
        &mut self,
        product_id: u32,
        sub_name: String,
        quantity: &str,
        created_by: u32,
    ) -> (r: ServiceResult<Sku>)
        requires
            old(self).wf(),
        ensures
            final(self).wf(),
            match r {
                Ok(s) => exists|j: int|
                    {
                        &&& 0 <= j < old(self).products_view().len()
                        &&& #[trigger] old(self).products_view()[j].product_id == product_id
                        &&& Quantity::parse_spec(quantity@) == Some(s@.quantity)
                        &&& max_of(sku_ids(old(self).skus_view())) < u32::MAX
                        &&& s@.sku == max_of(sku_ids(old(self).skus_view())) + 1
                        &&& s@.product_id == product_id
                        &&& s@.parent_name == old(self).products_view()[j].name
                        &&& s@.unit == old(self).products_view()[j].unit
                        &&& s@.sub_name == sub_name@
                        &&& !s@.can_divide
                        &&& s@.created_by == created_by
                        &&& s@.wf()
                        &&& final(self).skus_view() == old(self).skus_view().push(s@)
                        &&& final(self).products_view() == old(self).products_view().update(
                            j,
                            ProductView {
                                skus: old(self).products_view()[j].skus.push(s@.sku),
                                ..old(self).products_view()[j]
                            },
                        )
                    },
                Err(e) => {
                    &&& final(self).products_view() == old(self).products_view()
                    &&& final(self).skus_view() == old(self).skus_view()
                    &&& {
                        ||| !has_product(old(self).products_view(), product_id) && e is BadRequest
                        ||| has_product(old(self).products_view(), product_id)
                            && Quantity::parse_spec(quantity@) is None && e is BadRequest
                        ||| has_product(old(self).products_view(), product_id)
                            && Quantity::parse_spec(quantity@) is Some && max_of(
                            sku_ids(old(self).skus_view()),
                        ) == u32::MAX && e is InternalError
                    }
                },
            },
    {
        let ghost pv = self.products_view();
        let ghost sv = self.skus_view();
        proof {
            self.lemma_ids_unique();
        }
        let j = match self.products.position(product_id) {
            Some(j) => j,
            None => {
                assert(!has_product(pv, product_id)) by {
                    if has_product(pv, product_id) {
                        let j = choose|j: int| 0 <= j < pv.len() && #[trigger] pv[j].product_id == product_id;
                        assert(self.products@[j].key() == product_id);
                    }
                }
                return Err(ServiceError::bad_request("the product of a new SKU must exist"));
            },
        };
        assert(pv[j as int].product_id == product_id);
        let q = match Quantity::try_from_str(quantity) {
            Ok(q) => q,
            Err(e) => return Err(e),
        };
        let id = match self.next_sku() {
            Ok(id) => id,
            Err(e) => return Err(e),
        };
        let new_sku = Sku::new(id, product_id, self.products.get(j), sub_name, q, created_by);
        let copy = new_sku.clone();
        proof {
            lemma_above_max_is_free_sku(sv, id);
            if has_key(self.skus@, id) {
                let a = choose|a: int| 0 <= a < self.skus@.len() && #[trigger] self.skus@[a].key() == id;
                assert(sv[a].sku == id);
            }
        }
        match self.skus.insert(new_sku) {
            Ok(()) => {},
            Err(e) => return Err(e),
        }
        let ghost ps0 = self.products@;
        let p = self.products.get_mut(j);
        p.add_sku(id);
        proof {
            lemma_update_same_key(ps0, j as int, self.products@[j as int]);
            let pv1 = self.products_view();
            let sv1 = self.skus_view();
            let pj = ProductView { skus: pv[j as int].skus.push(id), ..pv[j as int] };
            assert(pv1 =~= pv.update(j as int, pj));
            assert(sv1 =~= sv.push(copy@));
            assert forall|a: int| 0 <= a < sv1.len() implies (#[trigger] sv1[a]).wf() && has_product(
                pv1,
                sv1[a].product_id,
            ) by {
                if a < sv.len() {
                    assert(sv1[a] == sv[a]);
                    let b = choose|b: int| 0 <= b < pv.len() && #[trigger] pv[b].product_id == sv[a].product_id;
                    assert(pv1[b].product_id == pv[b].product_id);
                } else {
                    assert(pv1[j as int].product_id == product_id);
                }
            }
            assert forall|a: int, b: int|
                0 <= a < sv1.len() && 0 <= b < pv1.len() && #[trigger] sv1[a].product_id
                    == #[trigger] pv1[b].product_id implies sv1[a].parent_name == pv1[b].name
                && sv1[a].unit == pv1[b].unit by {
                assert(pv1[b].name == pv[b].name && pv1[b].unit == pv[b].unit);
                assert(pv1[b].product_id == pv[b].product_id);
                if a < sv.len() {
                    assert(sv1[a] == sv[a]);
                } else if b != j {
                    assert(pv[b].product_id == pv[j as int].product_id);
                }
            }
            assert forall|b: int, k: int|
                0 <= b < pv1.len() && 0 <= k < pv1[b].skus.len() implies has_sku_of(
                sv1,
                #[trigger] pv1[b].skus[k],
                pv1[b].product_id,
            ) by {
                if b == j && k == pv[b].skus.len() {
                    assert(sv1[sv.len() as int].sku == id);
                } else {
                    assert(pv1[b].skus[k] == pv[b].skus[k]);
                    assert(has_sku_of(sv, pv[b].skus[k], pv[b].product_id));
                    let a = choose|a: int| 0 <= a < sv.len() && #[trigger] sv[a].sku == pv[b].skus[k] && sv[a].product_id == pv[b].product_id;
                    assert(sv1[a] == sv[a]);
                }
            }
        }
        Ok(copy)
    }

    /// Get all SKU ids, in insertion order
    pub fn get_sku_all(&self) -> (r: ServiceResult<Vec<u32>>)
        ensures
            r matches Ok(v) && v@ == sku_ids(self.skus_view()),
    {
        let v = self.skus.ids();
        assert(keys_of(self.skus@) =~= sku_ids(self.skus_view()));
        Ok(v)
    }

    /// Get SKU by ID
    pub fn get_sku(&self, sku_id: u32) -> (r: ServiceResult<Sku>)
        requires
            self.wf(),
        ensures
            match r {
                Ok(s) => s@.sku == sku_id && exists|i: int|
                    0 <= i < self.skus_view().len() && self.skus_view()[i] == s@,
                Err(e) => !has_sku(self.skus_view(), sku_id) && e is NotFound,
            },
    {
        let ghost sv = self.skus_view();
        match self.skus.position(sku_id) {
            Some(i) => {
                let s = self.skus.get(i).clone();
                assert(sv[i as int] == s@);
                Ok(s)
            },
            None => {
                assert(!has_sku(sv, sku_id)) by {
                    if has_sku(sv, sku_id) {
                        let i = choose|i: int| 0 <= i < sv.len() && #[trigger] sv[i].sku == sku_id;
                        assert(self.skus@[i].key() == sku_id);
                    }
                }
                Err(ServiceError::not_found("SKU not found"))
            },
        }
    }

    /// Get the SKUs whose ids are listed, in store order; unknown ids are left out.
    pub fn get_sku_bulk(&self, sku_ids: &Vec<u32>) -> (r: ServiceResult<Vec<Sku>>)
        ensures
            r matches Ok(v) && sku_views(v@) == select_skus(self.skus_view(), sku_ids@),
    {
        let ghost sv = self.skus_view();
        let n = self.skus.len();
        let mut res: Vec<Sku> = Vec::new();
        let mut i: usize = 0;
        while i < n
            invariant
                sv == self.skus_view(),
                n == sv.len(),
                i <= n,
                sku_views(res@) == select_skus(sv.subrange(0, i as int), sku_ids@),
            decreases n - i,
        {
            let s = self.skus.get(i);
            assert(sv.subrange(0, i + 1).drop_last() =~= sv.subrange(0, i as int));
            assert(sv[i as int] == s@);
            if contains_id(sku_ids, s.sku) {
                let c = s.clone();
                let ghost before = res@;
                res.push(c);
                assert(sku_views(res@) =~= sku_views(before).push(c@));
            }
            i = i + 1;
        }
        assert(sv.subrange(0, n as int) =~= sv);
        Ok(res)
    }

    /// Update a SKU's own name and quantity. Fails when the SKU does not exist, or when the
    /// quantity text is not `N` or `MxN`; then nothing changes.
    pub fn update_sku(&mut self, sku: u32, sub_name: String, quantity: &str) -> (r: ServiceResult<Sku>)
        requires
            old(self).wf(),
        ensures
            final(self).wf(),
            final(self).products_view() == old(self).products_view(),
            match r {
                Ok(s) => exists|i: int|
                    {
                        &&& 0 <= i < old(self).skus_view().len()
                        &&& old(self).skus_view()[i].sku == sku
                        &&& Quantity::parse_spec(quantity@) == Some(s@.quantity)
                        &&& s@ == with_contents(old(self).skus_view()[i], sub_name@, s@.quantity)
                        &&& final(self).skus_view() == old(self).skus_view().update(i, s@)
                    },
                Err(e) => {
                    &&& final(self).skus_view() == old(self).skus_view()
                    &&& (!has_sku(old(self).skus_view(), sku) && e is NotFound) || (has_sku(
                        old(self).skus_view(),
                        sku,
                    ) && Quantity::parse_spec(quantity@) is None && e is BadRequest)
                },
            },
    {
        let ghost pv = self.products_view();
        let ghost sv = self.skus_view();
        let i = match self.skus.position(sku) {
            Some(i) => i,
            None => {
                assert(!has_sku(sv, sku)) by {
                    if has_sku(sv, sku) {
                        let i = choose|i: int| 0 <= i < sv.len() && #[trigger] sv[i].sku == sku;
                        assert(self.skus@[i].key() == sku);
                    }
                }
                return Err(ServiceError::not_found("SKU not found"));
            },
        };
        assert(sv[i as int].sku == sku);
        let q = match Quantity::try_from_str(quantity) {
            Ok(q) => q,
            Err(e) => return Err(e),
        };
        let ghost ss0 = self.skus@;
        assert(sv[i as int].wf());
        let s = self.skus.get_mut(i);
        s.update(sub_name, q);
        proof {
            lemma_update_same_key(ss0, i as int, self.skus@[i as int]);
            assert(self.skus_view() =~= sv.update(i as int, self.skus@[i as int]@));
            Self::lemma_sku_replaced(pv, sv, i as int, self.skus@[i as int]@);
        }
        let res = self.skus.get(i).clone();
        Ok(res)
    }

    /// Allow or forbid dividing a SKU. Allowing it needs a simple quantity; forbidding it always
    /// succeeds on an existing SKU.
    pub fn update_sku_divide(&mut self, sku: u32, can_divide: bool) -> (r: ServiceResult<Sku>)
        requires
            old(self).wf(),
        ensures
            final(self).wf(),
            final(self).products_view() == old(self).products_view(),
            match r {
                Ok(s) => exists|i: int|
                    {
                        &&& 0 <= i < old(self).skus_view().len()
                        &&& old(self).skus_view()[i].sku == sku
                        &&& (!can_divide || old(self).skus_view()[i].quantity is Simple)
                        &&& s@ == (SkuView { can_divide, ..old(self).skus_view()[i] })
                        &&& final(self).skus_view() == old(self).skus_view().update(i, s@)
                    },
                Err(e) => {
                    &&& final(self).skus_view() == old(self).skus_view()
                    &&& (!has_sku(old(self).skus_view(), sku) && e is NotFound) || (exists|i: int|
                        0 <= i < old(self).skus_view().len() && old(self).skus_view()[i].sku == sku
                            && can_divide && old(self).skus_view()[i].quantity is Complex
                            && e is BadRequest)
                },
            },
    {
        let ghost pv = self.products_view();
        let ghost sv = self.skus_view();
        let i = match self.skus.position(sku) {
            Some(i) => i,
            None => {
                assert(!has_sku(sv, sku)) by {
                    if has_sku(sv, sku) {
                        let i = choose|i: int| 0 <= i < sv.len() && #[trigger] sv[i].sku == sku;
                        assert(self.skus@[i].key() == sku);
                    }
                }
                return Err(ServiceError::not_found("SKU not found"));
            },
        };
        assert(sv[i as int].sku == sku);
        let ghost ss0 = self.skus@;
        assert(sv[i as int].wf());
        let s = self.skus.get_mut(i);
        let ok = match s.set_divide(can_divide) {
            Ok(_) => true,
            Err(_) => false,
        };
        proof {
            lemma_update_same_key(ss0, i as int, self.skus@[i as int]);
            assert(self.skus_view() =~= sv.update(i as int, self.skus@[i as int]@));
            Self::lemma_sku_replaced(pv, sv, i as int, self.skus@[i as int]@);
        }
        if !ok {
            assert(self.skus_view() =~= sv);
            return Err(ServiceError::bad_request("only a SKU with a simple quantity can be divided"));
        }
        let res = self.skus.get(i).clone();
        Ok(res)
    }

    /// Find SKUs whose display name holds the query, case ignored
    pub fn find_sku(&self, query: &str) -> (r: ServiceResult<Vec<u32>>)
        ensures
            r matches Ok(v) && v@ == skus_matching(self.skus_view(), query@),
    {
        let ghost sv = self.skus_view();
        let q = lowercase(query);
        let n = self.skus.len();
        let mut res: Vec<u32> = Vec::new();
        let mut i: usize = 0;
        while i < n
            invariant
                sv == self.skus_view(),
                n == sv.len(),
                i <= n,
                q@ == lower_of(query@),
                res@ == skus_matching(sv.subrange(0, i as int), query@),
            decreases n - i,
        {
            let s = self.skus.get(i);
            assert(sv.subrange(0, i + 1).drop_last() =~= sv.subrange(0, i as int));
            assert(sv[i as int] == s@);
            let name = lowercase(s.display_name.as_str());
            if contains_text(name.as_str(), q.as_str()) {
                res.push(s.sku);
            }
            i = i + 1;
        }
        assert(sv.subrange(0, n as int) =~= sv);
        Ok(res)
    }
}

impl ProductService {
    /// The products, in insertion order.
    pub fn products(&self) -> (r: &Vec<Product>)
        ensures
            product_views(r@) == self.products_view(),
    {
        self.products.as_vec()
    }

    /// The SKUs, in insertion order.
    pub fn skus(&self) -> (r: &Vec<Sku>)
        ensures
            sku_views(r@) == self.skus_view(),
    {
        self.skus.as_vec()
    }

    /// The two stores, for writing out.
    pub fn into_parts(self) -> (r: (RecordStore<Product>, RecordStore<Sku>))
        requires
            self.wf(),
        ensures
            r.0.wf(),
            r.1.wf(),
            product_views(r.0@) == self.products_view(),
            sku_views(r.1@) == self.skus_view(),
    {
        (self.products, self.skus)
    }
}

/// Stores written out from a consistent catalog load back as that catalog: `init` refuses only
/// stores that disagree, and these agree.
pub proof fn lemma_catalog_reload(
    c: ProductService,
    products: RecordStore<Product>,
    skus: RecordStore<Sku>,
)
    requires
        c.wf(),
        products.wf(),
        skus.wf(),
        product_views(products@) == c.products_view(),
        sku_views(skus@) == c.skus_view(),
    ensures
        catalog_consistent(product_views(products@), sku_views(skus@)),
{
}

/// After a product changes, each of its SKUs shows the product's new name first in its display
/// name, followed by its own name and its packaging in the product's unit; the SKUs of other
/// products stay as they were.
pub proof fn lemma_cascade_renames(ss: Seq<SkuView>, p: ProductView, i: int)
    requires
        0 <= i < ss.len(),
    ensures
        cascade(ss, p).len() == ss.len(),
        ss[i].product_id == p.product_id ==> cascade(ss, p)[i].display_name == display_name_text(
            p.name,
            ss[i].sub_name,
            packaging_text(ss[i].quantity, p.unit),
        ),
        ss[i].product_id == p.product_id ==> cascade(ss, p)[i].display_name.subrange(
            0,
            p.name.len() as int,
        ) == p.name,
        ss[i].product_id == p.product_id ==> occurs_in(p.name, cascade(ss, p)[i].display_name),
        ss[i].product_id != p.product_id ==> cascade(ss, p)[i] == ss[i],
{
    if ss[i].product_id == p.product_id {
        let d = cascade(ss, p)[i].display_name;
        assert(d.subrange(0, p.name.len() as int) =~= p.name);
        assert(d.subrange(0, 0 + p.name.len() as int) == p.name);
    }
}

} // verus!
